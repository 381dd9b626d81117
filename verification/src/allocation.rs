//! L'allocation de la densité : quelle subdivision chaque triangle reçoit pour un budget
//! d'octets donné, et où sa plage commence.
//!
//! Chaque triangle arrive avec sa subdivision idéale (un micro-sommet par pixel couvert), telle
//! que l'aire la donne. Elle est d'abord ramenée sous le plafond [`K_MAX`] — et le plan compte les
//! triangles que ce plafond écrête. Un **biais global** entier, identique pour tous, est ensuite
//! retranché jusqu'à ce que l'empreinte tienne dans le budget :
//! `k(T) = clamp(min(k_ideal(T), K_MAX) + b, K_MIN, K_MAX)`. Le biais ne monte jamais au-dessus de
//! zéro — un budget généreux ne produit pas de densité plus fine que le pixel.

use vstd::prelude::*;
use vstd::arithmetic::power2::pow2;
use crate::surface::{micro_sommets, micro_sommets_de, OCTETS_PAR_ENTREE};

verus! {

/// La subdivision plancher : trois coins, aucun micro-sommet intérieur.
pub const K_MIN: u32 = 0;

/// La subdivision plafond — une limite d'arithmétique, pas de qualité.
pub const K_MAX: u32 = 8;

/// L'idéal `k` ramené sous le plafond.
pub open spec fn plafonne(k: int) -> int {
    if k > K_MAX { K_MAX as int } else { k }
}

/// La subdivision retenue pour un triangle dont l'idéal est `k`, sous le biais `b` : l'idéal
/// plafonné, biaisé, puis ramené dans `[K_MIN, K_MAX]`.
pub open spec fn k_ajuste(k: int, b: int) -> int {
    let p = plafonne(k);
    if p + b < K_MIN { K_MIN as int } else if p + b > K_MAX { K_MAX as int } else { p + b }
}

/// Les micro-sommets d'un triangle d'idéal `k` sous le biais `b`.
pub open spec fn taille_ajustee(k: int, b: int) -> int {
    micro_sommets_de(k_ajuste(k, b) as nat)
}

/// Le total des micro-sommets des triangles `ideaux` sous le biais `b`.
pub open spec fn somme_des_tailles(ideaux: Seq<u32>, b: int) -> int
    decreases ideaux.len(),
{
    if ideaux.len() == 0 {
        0
    } else {
        somme_des_tailles(ideaux.drop_last(), b) + taille_ajustee(ideaux.last() as int, b)
    }
}

/// Les octets que coûte la scène sous le biais `b`.
pub open spec fn cout(ideaux: Seq<u32>, b: int) -> int {
    somme_des_tailles(ideaux, b) * OCTETS_PAR_ENTREE
}

/// `b` est le biais que le budget impose : le plus grand biais de `[−K_MAX, 0]` dont le coût
/// tient dans le budget, ou `−K_MAX` quand aucun ne tient.
pub open spec fn est_le_biais_retenu(ideaux: Seq<u32>, budget: int, b: int) -> bool {
    &&& -(K_MAX as int) <= b <= 0
    &&& b > -(K_MAX as int) ==> cout(ideaux, b) <= budget
    &&& forall|c: int| b < c <= 0 ==> #[trigger] cout(ideaux, c) > budget
}

/// Un triangle est écrêté quand son idéal dépasse [`K_MAX`].
pub open spec fn ecrete() -> spec_fn(u32) -> bool {
    |k: u32| k > K_MAX
}

/// Le nombre de triangles dont le plafond écrête l'idéal.
pub open spec fn nombre_d_ecretes(ideaux: Seq<u32>) -> nat {
    ideaux.filter(ecrete()).len()
}

/// Le plan d'allocation : pour chaque triangle, sa subdivision et l'adresse où sa plage commence.
#[derive(Debug, Clone, PartialEq)]
pub struct Plan {
    /// Par triangle : `(base, cote)` où `cote = 2^k`.
    pub par_triangle: Vec<(u32, u32)>,
    /// Le total des micro-sommets, tous triangles confondus.
    pub entrees: u32,
    /// Le biais appliqué à la subdivision idéale pour tenir le budget.
    pub biais: i32,
    /// Le nombre de triangles dont la subdivision a été écrêtée par [`K_MAX`].
    pub ecretes: u32,
}

impl Plan {
    /// Les octets qu'occupe le plan.
    pub fn octets(&self) -> (r: u64)
        ensures
            r == self.entrees * OCTETS_PAR_ENTREE,
    {
        self.entrees as u64 * OCTETS_PAR_ENTREE
    }

    /// La subdivision d'un triangle, en nombre de segments par arête.
    pub fn cote(&self, triangle: u32) -> (r: u32)
        requires
            triangle < self.par_triangle@.len(),
        ensures
            r == self.par_triangle@[triangle as int].1,
    {
        self.par_triangle[triangle as usize].1
    }
}

/// La taille ajustée croît avec la subdivision : plus de subdivision, plus de micro-sommets.
pub proof fn lemme_micro_sommets_croissant(a: nat, b: nat)
    requires
        a <= b,
    ensures
        micro_sommets_de(a) <= micro_sommets_de(b),
{
    if a < b {
        vstd::arithmetic::power2::lemma_pow2_strictly_increases(a, b);
    }
    vstd::arithmetic::power2::lemma_pow2_pos(a);
    let x = pow2(a) as int;
    let y = pow2(b) as int;
    assert((x + 1) * (x + 2) <= (y + 1) * (y + 2)) by (nonlinear_arith)
        requires 0 < x <= y;
    assert((x + 1) * (x + 2) / 2 <= (y + 1) * (y + 2) / 2) by (nonlinear_arith)
        requires (x + 1) * (x + 2) <= (y + 1) * (y + 2);
}

/// Le coût croît avec le biais.
pub proof fn lemme_cout_croissant(ideaux: Seq<u32>, b1: int, b2: int)
    requires
        b1 <= b2,
    ensures
        somme_des_tailles(ideaux, b1) <= somme_des_tailles(ideaux, b2),
        cout(ideaux, b1) <= cout(ideaux, b2),
    decreases ideaux.len(),
{
    if ideaux.len() > 0 {
        lemme_cout_croissant(ideaux.drop_last(), b1, b2);
        let k = ideaux.last() as int;
        lemme_micro_sommets_croissant(k_ajuste(k, b1) as nat, k_ajuste(k, b2) as nat);
    }
}

/// ⭐ **Plus de budget ne donne jamais moins de densité.** Pour deux budgets, le plus grand
/// retient un biais au moins aussi grand, donc une empreinte au moins aussi grande.
pub proof fn lemme_plus_de_budget_jamais_moins_de_densite(
    ideaux: Seq<u32>,
    budget1: int,
    budget2: int,
    b1: int,
    b2: int,
)
    requires
        budget1 <= budget2,
        est_le_biais_retenu(ideaux, budget1, b1),
        est_le_biais_retenu(ideaux, budget2, b2),
    ensures
        b1 <= b2,
        cout(ideaux, b1) <= cout(ideaux, b2),
{
    if b1 > b2 {
        assert(cout(ideaux, b1) > budget2);
    }
    lemme_cout_croissant(ideaux, b1, b2);
}

/// Les micro-sommets d'un triangle de subdivision `k ≤ K_MAX` : au plus 33 153.
proof fn lemme_micro_sommets_k_max()
    ensures
        micro_sommets_de(0) == 3,
        micro_sommets_de(K_MAX as nat) == 33153,
{
    vstd::arithmetic::power2::lemma2_to64();
}

/// Les micro-sommets sous le biais `b`, calculés.
fn taille_du_triangle(k: u32, biais: i32) -> (r: (u32, u32))
    requires
        -(K_MAX as int) <= biais <= 0,
    ensures
        r.0 == k_ajuste(k as int, biais as int),
        r.1 == taille_ajustee(k as int, biais as int),
        3 <= r.1 <= 33153,
{
    let plafond: u32 = if k > K_MAX { K_MAX } else { k };
    let brut: i32 = plafond as i32 + biais;
    let ajuste: u32 = if brut < K_MIN as i32 {
        K_MIN
    } else if brut > K_MAX as i32 {
        K_MAX
    } else {
        brut as u32
    };
    proof {
        lemme_micro_sommets_croissant(0, ajuste as nat);
        lemme_micro_sommets_croissant(ajuste as nat, K_MAX as nat);
        lemme_micro_sommets_k_max();
    }
    (ajuste, micro_sommets(ajuste))
}

/// Le total des micro-sommets de la scène sous le biais `biais`.
pub fn entrees_pour_le_biais(ideaux: &[u32], biais: i32) -> (r: u64)
    requires
        -(K_MAX as int) <= biais <= 0,
        cout(ideaux@, 0) <= u64::MAX,
    ensures
        r == somme_des_tailles(ideaux@, biais as int),
        r * OCTETS_PAR_ENTREE == cout(ideaux@, biais as int) <= u64::MAX,
{
    let mut somme: u64 = 0;
    let mut i: usize = 0;
    proof {
        lemme_cout_croissant(ideaux@, biais as int, 0);
    }
    while i < ideaux.len()
        invariant
            -(K_MAX as int) <= biais <= 0,
            i <= ideaux@.len(),
            somme == somme_des_tailles(ideaux@.subrange(0, i as int), biais as int),
            somme_des_tailles(ideaux@, biais as int) * OCTETS_PAR_ENTREE <= u64::MAX,
        decreases ideaux.len() - i,
    {
        let (_, taille) = taille_du_triangle(ideaux[i], biais);
        proof {
            let pre = ideaux@.subrange(0, i as int + 1);
            assert(pre.drop_last() =~= ideaux@.subrange(0, i as int));
            lemme_somme_prefixe(ideaux@, i as int + 1, biais as int);
        }
        somme = somme + taille as u64;
        i = i + 1;
    }
    proof {
        assert(ideaux@.subrange(0, i as int) =~= ideaux@);
    }
    somme
}

/// Le biais que le budget impose : il part de zéro et descend tant que l'empreinte dépasse le
/// budget, au plus jusqu'à `−K_MAX`.
pub fn biais_retenu(ideaux: &[u32], budget_octets: u64) -> (b: i32)
    requires
        cout(ideaux@, 0) <= u64::MAX,
    ensures
        est_le_biais_retenu(ideaux@, budget_octets as int, b as int),
{
    let mut biais: i32 = 0;
    while biais > -(K_MAX as i32) && entrees_pour_le_biais(ideaux, biais) * OCTETS_PAR_ENTREE > budget_octets
        invariant
            cout(ideaux@, 0) <= u64::MAX,
            -(K_MAX as int) <= biais <= 0,
            forall|c: int| biais < c <= 0 ==> #[trigger] cout(ideaux@, c) > budget_octets,
        decreases biais + K_MAX,
    {
        biais = biais - 1;
    }
    biais
}

/// La somme d'un préfixe ne dépasse pas la somme entière.
proof fn lemme_somme_prefixe(ideaux: Seq<u32>, i: int, b: int)
    requires
        0 <= i <= ideaux.len(),
    ensures
        somme_des_tailles(ideaux.subrange(0, i), b) <= somme_des_tailles(ideaux, b),
    decreases ideaux.len() - i,
{
    if i < ideaux.len() {
        lemme_somme_prefixe(ideaux, i + 1, b);
        let pre = ideaux.subrange(0, i + 1);
        assert(pre.drop_last() =~= ideaux.subrange(0, i));
        lemme_micro_sommets_croissant(0, k_ajuste(ideaux[i] as int, b) as nat);
        lemme_micro_sommets_k_max();
    } else {
        assert(ideaux.subrange(0, i) =~= ideaux);
    }
}

/// La base du triangle `i` : le total des plages qui le précèdent.
pub open spec fn base_de(ideaux: Seq<u32>, b: int, i: int) -> int {
    somme_des_tailles(ideaux.subrange(0, i), b)
}

/// Construit le plan d'allocation d'une scène, à partir de la subdivision idéale de chaque
/// triangle et d'un budget d'octets.
///
/// Chaque idéal est d'abord ramené sous [`K_MAX`], et le plan compte ceux que ce plafond écrête.
/// Le biais part de zéro et descend tant que l'empreinte dépasse le budget, au plus jusqu'à
/// `−K_MAX`. Les plages se suivent ensuite dans l'ordre des triangles, sans trou ni recouvrement.
pub fn planifier_subdivisions(ideaux: &[u32], budget_octets: u64) -> (plan: Plan)
    requires
        cout(ideaux@, 0) <= u64::MAX,
        forall|b: int| est_le_biais_retenu(ideaux@, budget_octets as int, b)
            ==> #[trigger] somme_des_tailles(ideaux@, b) <= u32::MAX,
    ensures
        est_le_biais_retenu(ideaux@, budget_octets as int, plan.biais as int),
        plan.par_triangle@.len() == ideaux@.len(),
        forall|i: int| 0 <= i < ideaux@.len() ==> {
            &&& (#[trigger] plan.par_triangle@[i]).0 == base_de(ideaux@, plan.biais as int, i)
            &&& plan.par_triangle@[i].1 == pow2(k_ajuste(ideaux@[i] as int, plan.biais as int) as nat)
        },
        plan.entrees == somme_des_tailles(ideaux@, plan.biais as int),
        plan.ecretes == nombre_d_ecretes(ideaux@),
{
    let biais = biais_retenu(ideaux, budget_octets);
    let ghost b = biais as int;
    assert(est_le_biais_retenu(ideaux@, budget_octets as int, b));
    let mut par_triangle: Vec<(u32, u32)> = Vec::with_capacity(ideaux.len());
    let mut base: u32 = 0;
    let mut ecretes: u32 = 0;
    let mut i: usize = 0;
    proof {
        assert(ideaux@.subrange(0, 0) =~= Seq::<u32>::empty());
        Seq::<u32>::empty().lemma_filter_len(ecrete());
    }
    while i < ideaux.len()
        invariant
            -(K_MAX as int) <= biais <= 0,
            b == biais,
            i <= ideaux@.len(),
            somme_des_tailles(ideaux@, b) <= u32::MAX,
            base == base_de(ideaux@, b, i as int),
            ecretes == nombre_d_ecretes(ideaux@.subrange(0, i as int)),
            3 * ecretes <= base,
            par_triangle@.len() == i,
            forall|m: int| 0 <= m < i ==> {
                &&& (#[trigger] par_triangle@[m]).0 == base_de(ideaux@, b, m)
                &&& par_triangle@[m].1 == pow2(k_ajuste(ideaux@[m] as int, b) as nat)
            },
        decreases ideaux.len() - i,
    {
        let k = ideaux[i];
        let (ajuste, taille) = taille_du_triangle(k, biais);
        proof {
            vstd::arithmetic::power2::lemma2_to64();
            vstd::bits::lemma_u32_shl_is_mul(1, ajuste);
            let pre = ideaux@.subrange(0, i as int + 1);
            assert(pre.drop_last() =~= ideaux@.subrange(0, i as int));
            assert(pre =~= ideaux@.subrange(0, i as int).push(k));
            ideaux@.subrange(0, i as int).lemma_filter_push(k, ecrete());
            lemme_somme_prefixe(ideaux@, i as int + 1, b);
        }
        if k > K_MAX {
            ecretes = ecretes + 1;
        }
        par_triangle.push((base, 1u32 << ajuste));
        base = base + taille;
        i = i + 1;
    }
    proof {
        assert(ideaux@.subrange(0, i as int) =~= ideaux@);
    }
    Plan { par_triangle, entrees: base, biais, ecretes }
}

/// ⭐ **L'empreinte tient toujours dans le budget**, sauf quand même le plancher le dépasse : le
/// biais retenu est alors `−K_MAX`, et le plan le dit au lieu de mentir.
pub proof fn lemme_l_empreinte_tient_dans_le_budget(ideaux: Seq<u32>, budget: int, b: int)
    requires
        est_le_biais_retenu(ideaux, budget, b),
    ensures
        cout(ideaux, b) <= budget || b == -(K_MAX as int),
{
}

/// ⭐ **Un budget généreux ne produit aucun excédent** : quand la densité idéale tient dans le
/// budget, le biais reste à zéro — jamais au-dessus — et chaque triangle reçoit son idéal, au
/// plafond près.
pub proof fn lemme_un_budget_genereux_garde_l_ideal(ideaux: Seq<u32>, budget: int, b: int)
    requires
        est_le_biais_retenu(ideaux, budget, b),
        cout(ideaux, 0) <= budget,
    ensures
        b == 0,
        forall|i: int| 0 <= i < ideaux.len()
            ==> #[trigger] k_ajuste(ideaux[i] as int, b) == if ideaux[i] <= K_MAX {
                ideaux[i] as int
            } else {
                K_MAX as int
            },
{
}

/// ⭐ **Au biais plancher, chaque triangle retombe à ses trois coins** (une subdivision nulle, un
/// seul segment par arête), quel que soit son idéal.
pub proof fn lemme_le_plancher_rend_trois_coins(ideaux: Seq<u32>, i: int)
    requires
        0 <= i < ideaux.len(),
    ensures
        k_ajuste(ideaux[i] as int, -(K_MAX as int)) == K_MIN,
        pow2(k_ajuste(ideaux[i] as int, -(K_MAX as int)) as nat) == 1,
{
    vstd::arithmetic::power2::lemma2_to64();
}

/// ⭐ **Les plages se suivent sans trou ni recouvrement** : la première commence à zéro, chacune
/// commence où la précédente finit, et la dernière finit au total des entrées.
pub proof fn lemme_les_plages_se_suivent(ideaux: Seq<u32>, b: int, i: int)
    requires
        0 <= i < ideaux.len(),
    ensures
        base_de(ideaux, b, 0) == 0,
        base_de(ideaux, b, i + 1) == base_de(ideaux, b, i) + taille_ajustee(ideaux[i] as int, b),
        base_de(ideaux, b, ideaux.len() as int) == somme_des_tailles(ideaux, b),
{
    assert(ideaux.subrange(0, 0) =~= Seq::<u32>::empty());
    assert(ideaux.subrange(0, i + 1).drop_last() =~= ideaux.subrange(0, i));
    assert(ideaux.subrange(0, ideaux.len() as int) =~= ideaux);
}

/// ⭐ **À subdivision uniforme, l'adresse d'un triangle est son indice fois la taille d'un bloc** :
/// `base(T) = T · (n+1)(n+2)/2`, sans rien consulter d'autre.
pub proof fn lemme_base_uniforme(ideaux: Seq<u32>, b: int, i: int)
    requires
        0 <= i <= ideaux.len(),
        forall|j: int| 0 <= j < ideaux.len() ==> #[trigger] ideaux[j] == ideaux[0],
    ensures
        base_de(ideaux, b, i) == i * taille_ajustee(ideaux[0] as int, b),
    decreases i,
{
    if i == 0 {
        assert(ideaux.subrange(0, 0) =~= Seq::<u32>::empty());
    } else {
        lemme_base_uniforme(ideaux, b, i - 1);
        assert(ideaux.subrange(0, i).drop_last() =~= ideaux.subrange(0, i - 1));
        assert(ideaux[i - 1] == ideaux[0]);
        let t = taille_ajustee(ideaux[0] as int, b);
        assert((i - 1) * t + t == i * t) by (nonlinear_arith);
    }
}

} // verus!
