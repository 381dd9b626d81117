//! L'adresse d'un micro-sommet dans la mémoire de surface.
//!
//! Un triangle subdivisé `k` fois porte `n = 2^k` segments par arête, donc `(n+1)(n+2)/2`
//! micro-sommets rangés en triangle. Le micro-sommet `(i, j)` vit au rang
//! `j·(2n + 3 − j)/2 + i` : une somme de rangées décroissantes, sans aucune recherche.

use vstd::prelude::*;
use vstd::arithmetic::power2::{pow2, lemma2_to64, lemma_pow2_pos};

verus! {

/// Les octets d'une entrée : deux `u32`, soit quatre demi-flottants (R, G, B, réservé).
pub const OCTETS_PAR_ENTREE: u64 = 8;

/// Le nombre de segments par arête d'un triangle subdivisé `k` fois.
pub open spec fn segments(k: nat) -> int {
    pow2(k) as int
}

/// Le nombre de micro-sommets d'un triangle de `n` segments par arête.
pub open spec fn sommets_du_triangle(n: int) -> int {
    (n + 1) * (n + 2) / 2
}

/// Le nombre de micro-sommets d'un triangle subdivisé `k` fois.
pub open spec fn micro_sommets_de(k: nat) -> int {
    sommets_du_triangle(segments(k))
}

/// Le rang du premier micro-sommet de la rangée `j`.
pub open spec fn debut_de_rangee(j: int, n: int) -> int {
    j * (2 * n + 3 - j) / 2
}

/// Le rang du micro-sommet `(i, j)` pour `n` segments par arête.
pub open spec fn rang_de(i: int, j: int, n: int) -> int {
    debut_de_rangee(j, n) + i
}

/// Le micro-sommet `(i, j)` appartient au triangle de `n` segments par arête.
pub open spec fn dans_le_triangle(i: int, j: int, n: int) -> bool {
    0 <= i && 0 <= j && i + j <= n
}

/// La rangée `j + 1` commence `n + 1 − j` rangs après la rangée `j`.
pub proof fn lemme_rangee_suivante(j: int, n: int)
    ensures
        debut_de_rangee(j + 1, n) == debut_de_rangee(j, n) + (n + 1 - j),
{
    let p = j * (2 * n + 3 - j);
    assert((j + 1) * (2 * n + 3 - (j + 1)) == p + 2 * (n + 1 - j)) by (nonlinear_arith)
        requires p == j * (2 * n + 3 - j);
    assert((p + 2 * (n + 1 - j)) / 2 == p / 2 + (n + 1 - j));
}

/// Les débuts de rangées croissent strictement tant que les rangées ne sont pas vides.
pub proof fn lemme_rangees_croissantes(a: int, b: int, n: int)
    requires
        0 <= a <= b <= n + 1,
    ensures
        debut_de_rangee(b, n) >= debut_de_rangee(a, n) + (b - a),
    decreases b - a,
{
    if a < b {
        lemme_rangees_croissantes(a, b - 1, n);
        lemme_rangee_suivante(b - 1, n);
    }
}

/// Les rangées `0 ..= n` couvrent exactement le triangle.
pub proof fn lemme_fin_des_rangees(n: int)
    ensures
        debut_de_rangee(0, n) == 0,
        debut_de_rangee(n + 1, n) == sommets_du_triangle(n),
{
    assert((n + 1) * (2 * n + 3 - (n + 1)) == (n + 1) * (n + 2)) by (nonlinear_arith);
}

/// ⭐ L'adresse est une bijection du triangle sur `0 .. (n+1)(n+2)/2` : chaque micro-sommet du
/// triangle a un rang dans la plage, et deux micro-sommets distincts n'ont jamais le même rang.
pub proof fn lemme_rang_injectif(i1: int, j1: int, i2: int, j2: int, n: int)
    requires
        dans_le_triangle(i1, j1, n),
        dans_le_triangle(i2, j2, n),
    ensures
        0 <= rang_de(i1, j1, n) < sommets_du_triangle(n),
        rang_de(i1, j1, n) == rang_de(i2, j2, n) ==> i1 == i2 && j1 == j2,
{
    lemme_fin_des_rangees(n);
    lemme_rangees_croissantes(0, j1, n);
    lemme_rangees_croissantes(j1 + 1, n + 1, n);
    lemme_rangee_suivante(j1, n);
    if j1 < j2 {
        lemme_rangees_croissantes(j1 + 1, j2, n);
    } else if j2 < j1 {
        lemme_rangees_croissantes(j2 + 1, j1, n);
        lemme_rangee_suivante(j2, n);
    }
}

/// ⭐ Et chaque rang de la plage est atteint : aucune entrée n'est allouée pour rien.
pub proof fn lemme_rang_surjectif(r: int, n: int) -> (ij: (int, int))
    requires
        n >= 0,
        0 <= r < sommets_du_triangle(n),
    ensures
        dans_le_triangle(ij.0, ij.1, n),
        rang_de(ij.0, ij.1, n) == r,
{
    lemme_fin_des_rangees(n);
    antecedent_depuis(r, n, 0)
}

/// Le micro-sommet de rang `r`, cherché rangée après rangée à partir de la rangée `j`.
proof fn antecedent_depuis(r: int, n: int, j: int) -> (ij: (int, int))
    requires
        0 <= j <= n,
        debut_de_rangee(j, n) <= r < sommets_du_triangle(n),
        sommets_du_triangle(n) == debut_de_rangee(n + 1, n),
    ensures
        dans_le_triangle(ij.0, ij.1, n),
        rang_de(ij.0, ij.1, n) == r,
    decreases n - j,
{
    lemme_rangee_suivante(j, n);
    if r < debut_de_rangee(j + 1, n) {
        (r - debut_de_rangee(j, n), j)
    } else {
        antecedent_depuis(r, n, j + 1)
    }
}

/// Le nombre de micro-sommets d'un triangle subdivisé `k` fois.
///
/// `k` est borné par ce qu'un `u32` peut compter : à `k = 16`, le compte déborde.
pub fn micro_sommets(k: u32) -> (r: u32)
    requires
        k <= 15,
    ensures
        r == micro_sommets_de(k as nat),
{
    proof {
        lemma_pow2_pos(k as nat);
        lemme_pow2_borne(k as nat);
        vstd::bits::lemma_u32_shl_is_mul(1, k);
    }
    let n = 1u32 << k;
    proof {
        assert((n + 1) * (n + 2) <= 32769 * 32770) by (nonlinear_arith)
            requires n <= 32768;
    }
    (n + 1) * (n + 2) / 2
}

/// `2^k` pour `k ≤ 15` ne dépasse pas `2^15`.
proof fn lemme_pow2_borne(k: nat)
    requires
        k <= 15,
    ensures
        pow2(k) <= 32768,
    decreases k,
{
    lemma2_to64();
    if k < 15 {
        vstd::arithmetic::power2::lemma_pow2_strictly_increases(k, 15);
    }
}

/// Le rang du micro-sommet `(i, j)` dans son triangle, pour `n` segments par arête.
///
/// Aucune vérification que `i + j ≤ n` : hors du triangle, le rang empiète sur la rangée
/// suivante. Seul le débordement d'un `u32` est exclu.
pub fn rang(i: u32, j: u32, n: u32) -> (r: u32)
    requires
        2 * n + 3 <= u32::MAX,
        j <= 2 * n + 3,
        j * (2 * n + 3 - j) <= u32::MAX,
        j * (2 * n + 3 - j) / 2 + i <= u32::MAX,
    ensures
        r == rang_de(i as int, j as int, n as int),
{
    j * (2 * n + 3 - j) / 2 + i
}

/// L'inverse de [`rang`] : retrouve `(i, j)` depuis un rang.
///
/// La rangée est cherchée par dichotomie sur les débuts de rangées, en arithmétique entière :
/// le plus grand `j` dont la rangée commence au plus tard à `r`. Un rang au-delà du triangle
/// tombe dans la rangée `n + 1`, qui n'existe pas : la paire rendue est hors du triangle, et c'est
/// à l'appelant de rester dans le domaine.
pub fn depuis_rang(r: u32, n: u32) -> (ij: (u32, u32))
    requires
        n * (n + 3) <= u32::MAX,
        r >= sommets_du_triangle(n as int) ==> (n + 1) * (n + 2) <= u32::MAX,
    ensures
        r < sommets_du_triangle(n as int) ==> {
            &&& dans_le_triangle(ij.0 as int, ij.1 as int, n as int)
            &&& rang_de(ij.0 as int, ij.1 as int, n as int) == r
        },
        r >= sommets_du_triangle(n as int) ==> ij == ((r - sommets_du_triangle(n as int)) as u32, (n + 1) as u32),
{
    proof {
        lemme_fin_des_rangees(n as int);
        assert(n <= 65534) by (nonlinear_arith)
            requires n * (n + 3) <= u32::MAX;
        assert((n + 1) * (n + 2) == n * (n + 3) + 2) by (nonlinear_arith);
    }
    let total: u64 = (n as u64 + 1) * (n as u64 + 2) / 2;
    if r as u64 >= total {
        return (r - total as u32, n + 1);
    }
    // Invariant : la rangée `bas` commence au plus tard à `r`, la rangée `haut` après `r`.
    let mut bas: u32 = 0;
    let mut haut: u32 = n + 1;
    while haut - bas > 1
        invariant
            n * (n + 3) <= u32::MAX,
            n <= 65534,
            0 <= bas < haut <= n + 1,
            debut_de_rangee(bas as int, n as int) <= r,
            r < debut_de_rangee(haut as int, n as int),
        decreases haut - bas,
    {
        let milieu = bas + (haut - bas) / 2;
        proof {
            assert(milieu * (2 * n + 3 - milieu) <= n * (n + 3)) by (nonlinear_arith)
                requires milieu <= n;
        }
        let debut = milieu * (2 * n + 3 - milieu) / 2;
        if debut <= r {
            bas = milieu;
        } else {
            haut = milieu;
        }
    }
    proof {
        assert(bas * (2 * n + 3 - bas) <= n * (n + 3)) by (nonlinear_arith)
            requires bas <= n;
        lemme_rangee_suivante(bas as int, n as int);
    }
    let debut = bas * (2 * n + 3 - bas) / 2;
    (r - debut, bas)
}

/// La taille de la mémoire de surface d'un maillage uniformément subdivisé.
#[derive(Clone, Copy, Debug, PartialEq, Eq, Structural)]
pub struct TailleDeSurface {
    /// Le nombre d'entrées — de micro-sommets, tous triangles confondus.
    pub entrees: u32,
    /// Le nombre de segments par arête, `2^k`.
    pub cote: u32,
    /// Les micro-sommets d'un seul triangle.
    pub par_triangle: u32,
}

impl TailleDeSurface {
    /// La mémoire de `triangles` triangles subdivisés `k` fois.
    pub fn pour(triangles: u32, k: u32) -> (t: Self)
        requires
            k <= 15,
            triangles * micro_sommets_de(k as nat) <= u32::MAX,
        ensures
            t.par_triangle == micro_sommets_de(k as nat),
            t.entrees == triangles * micro_sommets_de(k as nat),
            t.cote == segments(k as nat),
    {
        let par_triangle = micro_sommets(k);
        proof {
            lemma2_to64();
            lemme_pow2_borne(k as nat);
            vstd::bits::lemma_u32_shl_is_mul(1, k);
        }
        TailleDeSurface { entrees: triangles * par_triangle, cote: 1u32 << k, par_triangle }
    }

    /// Les octets réellement occupés.
    pub fn octets(&self) -> (r: u64)
        ensures
            r == self.entrees * OCTETS_PAR_ENTREE,
    {
        self.entrees as u64 * OCTETS_PAR_ENTREE
    }
}

} // verus!
