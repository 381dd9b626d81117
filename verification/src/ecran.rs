//! L'écran : ce qui va de la lumière au pixel.
//!
//! La scène se dessine dans une image HDR ; le halo y retient ce qui déborde du blanc affichable,
//! le réduit d'octave en octave, puis remonte les échelles et les ajoute à la scène. Ce module
//! décide combien d'octaves une image porte, quelle taille chacune a, et dans quel ordre les passes
//! les lisent et les écrivent.

use vstd::prelude::*;
use vstd::arithmetic::power2::{pow2, lemma_pow2_pos, lemma_pow2_unfold, lemma_pow2_strictly_increases};
use vstd::arithmetic::div_mod::{lemma_div_denominator, lemma_div_is_ordered_by_denominator, lemma_div_is_ordered};
use crate::pipeline::{etat_attendu, reglages_plein_ecran, reglages_plein_ecran_attendus, Melange, Reglages};

verus! {

/// La plus petite image qui porte encore de l'information spatiale : on descend jusqu'à passer
/// sous ce seuil, si bien que le rayon du halo est une fraction fixe de l'écran.
pub const PLUS_PETIT_NIVEAU: u32 = 8;

/// Plafond du nombre d'octaves : un septième niveau pèserait 1/128, sous le pas de quantification
/// d'un écran à 8 bits par canal.
pub const OCTAVES_MAX: usize = 6;

/// Le plus petit des deux côtés.
pub open spec fn plus_petit_cote(largeur: nat, hauteur: nat) -> nat {
    if largeur <= hauteur { largeur } else { hauteur }
}

/// Combien de fois on peut diviser `cote` par deux sans passer sous le plus petit niveau, sans
/// dépasser `plafond` divisions.
pub open spec fn octaves_de(cote: nat, plafond: nat) -> nat
    decreases plafond,
{
    if plafond == 0 || cote / 2 < PLUS_PETIT_NIVEAU {
        0
    } else {
        1 + octaves_de(cote / 2, (plafond - 1) as nat)
    }
}

/// Le nombre d'octaves du halo pour une image de cette taille.
pub open spec fn nombre_d_octaves(largeur: nat, hauteur: nat) -> nat {
    octaves_de(plus_petit_cote(largeur, hauteur), OCTAVES_MAX as nat)
}

/// Diviser par `2^k` puis par deux, c'est diviser par `2^(k+1)` — dans un sens comme dans
/// l'autre.
proof fn lemme_moitie(c: nat, k: nat)
    ensures
        c / pow2(k) / 2 == c / pow2(k + 1),
        c / 2 / pow2(k) == c / pow2(k + 1),
        pow2(k) > 0,
{
    lemma_pow2_pos(k);
    lemma_pow2_unfold(k + 1);
    lemma_div_denominator(c as int, pow2(k) as int, 2);
    lemma_div_denominator(c as int, 2, pow2(k) as int);
}

/// Ce qui caractérise le nombre d'octaves : il ne dépasse pas le plafond, sa dernière octave ne
/// passe pas sous le plus petit niveau, et une octave de plus y passerait — sauf au plafond.
pub proof fn lemme_octaves_caracterisees(cote: nat, plafond: nat)
    ensures
        octaves_de(cote, plafond) <= plafond,
        octaves_de(cote, plafond) > 0 ==> cote / pow2(octaves_de(cote, plafond)) >= PLUS_PETIT_NIVEAU,
        octaves_de(cote, plafond) < plafond
            ==> cote / pow2(octaves_de(cote, plafond) + 1) < PLUS_PETIT_NIVEAU,
    decreases plafond,
{
    let l = octaves_de(cote, plafond);
    if plafond == 0 {
    } else if cote / 2 < PLUS_PETIT_NIVEAU {
        vstd::arithmetic::power2::lemma2_to64();
    } else {
        let demi = cote / 2;
        lemme_octaves_caracterisees(demi, (plafond - 1) as nat);
        let l2 = octaves_de(demi, (plafond - 1) as nat);
        lemme_moitie(cote, l2);
        lemme_moitie(cote, l2 + 1);
        if l2 == 0 {
            vstd::arithmetic::power2::lemma2_to64();
        }
    }
}

/// Un plafond plus haut d'une unité ne change le compte que s'il l'atteint.
proof fn lemme_plafond_non_atteint(cote: nat, plafond: nat)
    requires
        octaves_de(cote, plafond + 1) < plafond + 1,
    ensures
        octaves_de(cote, plafond) == octaves_de(cote, plafond + 1),
    decreases plafond,
{
    if plafond > 0 && cote / 2 >= PLUS_PETIT_NIVEAU {
        lemme_plafond_non_atteint(cote / 2, (plafond - 1) as nat);
    }
}

/// ⭐ **Doubler la résolution ajoute exactement une octave**, tant que l'image porte déjà le plus
/// petit niveau et que le plafond n'est pas atteint : la plus grande échelle du halo couvre donc
/// toujours la même part de l'image.
pub proof fn lemme_doubler_ajoute_une_octave(largeur: nat, hauteur: nat)
    requires
        plus_petit_cote(largeur, hauteur) >= PLUS_PETIT_NIVEAU,
        nombre_d_octaves(largeur, hauteur) < OCTAVES_MAX,
    ensures
        nombre_d_octaves(2 * largeur, 2 * hauteur) == nombre_d_octaves(largeur, hauteur) + 1,
{
    let c = plus_petit_cote(largeur, hauteur);
    assert(plus_petit_cote(2 * largeur, 2 * hauteur) == 2 * c);
    assert((2 * c) / 2 == c);
    lemme_plafond_non_atteint(c, (OCTAVES_MAX - 1) as nat);
}

/// Combien de niveaux la chaîne du halo compte pour une image de cette taille.
pub fn octaves(largeur: u32, hauteur: u32) -> (r: usize)
    ensures
        r == nombre_d_octaves(largeur as nat, hauteur as nat),
        r <= OCTAVES_MAX,
        r > 0 ==> plus_petit_cote(largeur as nat, hauteur as nat) / pow2(r as nat) >= PLUS_PETIT_NIVEAU,
        r < OCTAVES_MAX ==> plus_petit_cote(largeur as nat, hauteur as nat) / pow2(r as nat + 1)
            < PLUS_PETIT_NIVEAU,
{
    let mut compte: usize = 0;
    let mut cote: u32 = if largeur <= hauteur { largeur } else { hauteur };
    let ghost c0 = cote as nat;
    proof {
        vstd::arithmetic::power2::lemma2_to64();
    }
    while cote / 2 >= PLUS_PETIT_NIVEAU && compte < OCTAVES_MAX
        invariant
            compte <= OCTAVES_MAX,
            cote as nat == c0 / pow2(compte as nat),
            compte + octaves_de(cote as nat, (OCTAVES_MAX - compte) as nat)
                == octaves_de(c0, OCTAVES_MAX as nat),
        decreases OCTAVES_MAX - compte,
    {
        proof {
            lemme_moitie(c0, compte as nat);
        }
        cote = cote / 2;
        compte = compte + 1;
    }
    proof {
        lemme_octaves_caracterisees(c0, OCTAVES_MAX as nat);
    }
    compte
}

/// La taille de l'octave `i` (la première est la moitié de l'image) : chaque côté divisé par
/// `2^(i+1)`, sans jamais descendre sous un pixel.
pub open spec fn etendue_d_octave(largeur: nat, hauteur: nat, i: nat) -> (nat, nat) {
    let l = largeur / pow2(i + 1);
    let h = hauteur / pow2(i + 1);
    (if l >= 1 { l } else { 1 }, if h >= 1 { h } else { 1 })
}

/// Les tailles des octaves du halo pour une image de cette taille, de la plus grande à la plus
/// petite. Aucune ne descend sous le plus petit niveau.
pub fn etendues_des_octaves(largeur: u32, hauteur: u32) -> (r: Vec<(u32, u32)>)
    ensures
        r@.len() == nombre_d_octaves(largeur as nat, hauteur as nat),
        forall|i: int| 0 <= i < r@.len() ==> (#[trigger] r@[i]).0 as nat
            == etendue_d_octave(largeur as nat, hauteur as nat, i as nat).0
            && r@[i].1 as nat == etendue_d_octave(largeur as nat, hauteur as nat, i as nat).1,
        forall|i: int| 0 <= i < r@.len() ==> (#[trigger] r@[i]).0 >= PLUS_PETIT_NIVEAU
            && r@[i].1 >= PLUS_PETIT_NIVEAU,
{
    let combien = octaves(largeur, hauteur);
    let ghost c = plus_petit_cote(largeur as nat, hauteur as nat);
    let mut r: Vec<(u32, u32)> = Vec::new();
    let mut l: u32 = largeur / 2;
    let mut h: u32 = hauteur / 2;
    let mut i: usize = 0;
    proof {
        vstd::arithmetic::power2::lemma2_to64();
    }
    while i < combien
        invariant
            combien == nombre_d_octaves(largeur as nat, hauteur as nat),
            combien <= OCTAVES_MAX,
            combien > 0 ==> c / pow2(combien as nat) >= PLUS_PETIT_NIVEAU,
            c == plus_petit_cote(largeur as nat, hauteur as nat),
            i <= combien,
            r@.len() == i,
            l as nat == largeur as nat / pow2(i as nat + 1),
            h as nat == hauteur as nat / pow2(i as nat + 1),
            forall|j: int| 0 <= j < i ==> (#[trigger] r@[j]).0 as nat
                == etendue_d_octave(largeur as nat, hauteur as nat, j as nat).0
                && r@[j].1 as nat == etendue_d_octave(largeur as nat, hauteur as nat, j as nat).1,
            forall|j: int| 0 <= j < i ==> (#[trigger] r@[j]).0 >= PLUS_PETIT_NIVEAU
                && r@[j].1 >= PLUS_PETIT_NIVEAU,
        decreases combien - i,
    {
        proof {
            lemme_octave_assez_grande(largeur as nat, hauteur as nat, i as nat, combien as nat);
            lemme_moitie(largeur as nat, i as nat + 1);
            lemme_moitie(hauteur as nat, i as nat + 1);
        }
        let el: u32 = if l >= 1 { l } else { 1 };
        let eh: u32 = if h >= 1 { h } else { 1 };
        r.push((el, eh));
        l = l / 2;
        h = h / 2;
        i = i + 1;
    }
    r
}

/// ⭐ **Chaque côté d'une octave vient du même côté de l'image.** La première octave est la
/// moitié de l'image, chaque octave la moitié de la précédente, sans descendre sous un pixel ; la
/// largeur d'une octave ne dépend que de la largeur de l'image, sa hauteur que de la hauteur, et
/// une image tournée d'un quart de tour donne des octaves tournées de même.
pub proof fn lemme_les_octaves_suivent_l_image(largeur: nat, hauteur: nat, autre: nat, i: nat)
    ensures
        etendue_d_octave(largeur, hauteur, 0) == (
            if largeur >= 2 { largeur / 2 } else { 1nat },
            if hauteur >= 2 { hauteur / 2 } else { 1nat },
        ),
        etendue_d_octave(largeur, hauteur, i + 1).0 == (if etendue_d_octave(largeur, hauteur, i).0 >= 2 {
            etendue_d_octave(largeur, hauteur, i).0 / 2
        } else {
            1nat
        }),
        etendue_d_octave(largeur, hauteur, i + 1).1 == (if etendue_d_octave(largeur, hauteur, i).1 >= 2 {
            etendue_d_octave(largeur, hauteur, i).1 / 2
        } else {
            1nat
        }),
        etendue_d_octave(largeur, hauteur, i).0 == etendue_d_octave(largeur, autre, i).0,
        etendue_d_octave(largeur, hauteur, i).1 == etendue_d_octave(autre, hauteur, i).1,
        etendue_d_octave(hauteur, largeur, i) == (etendue_d_octave(largeur, hauteur, i).1,
            etendue_d_octave(largeur, hauteur, i).0),
{
    vstd::arithmetic::power2::lemma2_to64();
    lemme_moitie(largeur, i + 1);
    lemme_moitie(hauteur, i + 1);
    lemma_pow2_pos(i + 2);
}

/// Une octave d'avant la dernière a ses deux côtés au moins au plus petit niveau.
proof fn lemme_octave_assez_grande(largeur: nat, hauteur: nat, i: nat, combien: nat)
    requires
        i < combien,
        plus_petit_cote(largeur, hauteur) / pow2(combien) >= PLUS_PETIT_NIVEAU,
    ensures
        largeur / pow2(i + 1) >= PLUS_PETIT_NIVEAU,
        hauteur / pow2(i + 1) >= PLUS_PETIT_NIVEAU,
{
    let c = plus_petit_cote(largeur, hauteur);
    lemma_pow2_pos(i + 1);
    if i + 1 < combien {
        lemma_pow2_strictly_increases(i + 1, combien);
    }
    lemma_div_is_ordered_by_denominator(c as int, pow2(i + 1) as int, pow2(combien) as int);
    lemma_div_is_ordered(c as int, largeur as int, pow2(i + 1) as int);
    lemma_div_is_ordered(c as int, hauteur as int, pow2(i + 1) as int);
}

/// Ce qu'une passe du halo fait.
#[derive(Clone, Copy, Debug, PartialEq, Eq, Structural)]
pub enum Operation {
    /// Retient de la scène ce qui déborde du blanc affichable.
    Extraction,
    /// Réduit une octave dans la suivante, deux fois plus petite.
    Descente,
    /// Remonte une octave dans la précédente, moitié-moitié avec ce qui y est déjà.
    Montee,
    /// Ajoute la plus grande octave à la scène.
    MonteeFinale,
}

/// Une image que le halo lit ou écrit.
#[derive(Clone, Copy, Debug, PartialEq, Eq, Structural)]
pub enum ImageDuHalo {
    /// La scène résolue.
    Scene,
    /// L'octave d'indice donné, de la plus grande (0) à la plus petite.
    Octave(usize),
}

/// Une passe plein écran du halo : ce qu'elle fait, ce qu'elle lit, ce qu'elle écrit, et si elle
/// a besoin de ce que sa cible contient déjà.
#[derive(Clone, Copy, Debug, PartialEq, Eq, Structural)]
pub struct PasseDuHalo {
    pub operation: Operation,
    pub lecture: ImageDuHalo,
    pub cible: ImageDuHalo,
    /// Charger la cible plutôt que la recouvrir : seuls les mélanges en ont besoin.
    pub charger: bool,
}

/// La passe `j` d'un halo à `n` octaves : l'extraction, les `n - 1` descentes, les `n - 1`
/// remontées de la plus petite vers la plus grande, puis la dernière marche vers la scène.
pub open spec fn passe_du_halo(n: nat, j: nat) -> PasseDuHalo {
    if j == 0 {
        PasseDuHalo {
            operation: Operation::Extraction,
            lecture: ImageDuHalo::Scene,
            cible: ImageDuHalo::Octave(0),
            charger: false,
        }
    } else if j < n {
        PasseDuHalo {
            operation: Operation::Descente,
            lecture: ImageDuHalo::Octave((j - 1) as usize),
            cible: ImageDuHalo::Octave(j as usize),
            charger: false,
        }
    } else if j + 1 < 2 * n {
        let i = 2 * n - 2 - j;
        PasseDuHalo {
            operation: Operation::Montee,
            lecture: ImageDuHalo::Octave((i + 1) as usize),
            cible: ImageDuHalo::Octave(i as usize),
            charger: true,
        }
    } else {
        PasseDuHalo {
            operation: Operation::MonteeFinale,
            lecture: ImageDuHalo::Octave(0),
            cible: ImageDuHalo::Scene,
            charger: true,
        }
    }
}

/// Les passes du halo, dans l'ordre où elles s'enregistrent. Rien quand le halo est éteint ou
/// que l'image est trop petite pour porter une octave : le rendu reste juste, sans halo.
pub fn plan_de_diffusion(niveaux: usize, halo: bool) -> (r: Vec<PasseDuHalo>)
    requires
        niveaux <= OCTAVES_MAX,
    ensures
        !halo || niveaux == 0 ==> r@.len() == 0,
        halo && niveaux > 0 ==> r@ == Seq::new(2 * niveaux as nat, |j: int| passe_du_halo(niveaux as nat, j as nat)),
{
    let mut r: Vec<PasseDuHalo> = Vec::new();
    if !halo || niveaux == 0 {
        return r;
    }
    r.push(PasseDuHalo {
        operation: Operation::Extraction,
        lecture: ImageDuHalo::Scene,
        cible: ImageDuHalo::Octave(0),
        charger: false,
    });
    let mut i: usize = 1;
    while i < niveaux
        invariant
            1 <= i <= niveaux <= OCTAVES_MAX,
            r@ == Seq::new(i as nat, |j: int| passe_du_halo(niveaux as nat, j as nat)),
        decreases niveaux - i,
    {
        r.push(PasseDuHalo {
            operation: Operation::Descente,
            lecture: ImageDuHalo::Octave(i - 1),
            cible: ImageDuHalo::Octave(i),
            charger: false,
        });
        i = i + 1;
        proof {
            assert(r@ =~= Seq::new(i as nat, |j: int| passe_du_halo(niveaux as nat, j as nat)));
        }
    }
    let mut k: usize = niveaux - 1;
    while k > 0
        invariant
            k < niveaux <= OCTAVES_MAX,
            r@ == Seq::new((2 * niveaux - 1 - k) as nat, |j: int| passe_du_halo(niveaux as nat, j as nat)),
        decreases k,
    {
        r.push(PasseDuHalo {
            operation: Operation::Montee,
            lecture: ImageDuHalo::Octave(k),
            cible: ImageDuHalo::Octave(k - 1),
            charger: true,
        });
        k = k - 1;
        proof {
            assert(r@ =~= Seq::new((2 * niveaux - 1 - k) as nat, |j: int| passe_du_halo(niveaux as nat, j as nat)));
        }
    }
    r.push(PasseDuHalo {
        operation: Operation::MonteeFinale,
        lecture: ImageDuHalo::Octave(0),
        cible: ImageDuHalo::Scene,
        charger: true,
    });
    proof {
        assert(r@ =~= Seq::new(2 * niveaux as nat, |j: int| passe_du_halo(niveaux as nat, j as nat)));
    }
    r
}

/// ⭐ Dans un halo à `n` octaves, **chaque octave est écrite avant d'être lue**, et chaque passe
/// qui charge sa cible la trouve déjà écrite (ou c'est la scène, qui existe avant le halo) : aucune
/// passe ne mêle son résultat à du vide. Toutes les octaves nommées existent.
pub proof fn lemme_chaque_octave_est_ecrite_avant_d_etre_lue(n: nat, j: nat)
    requires
        0 < n,
        j < 2 * n,
    ensures
        passe_du_halo(n, j).lecture matches ImageDuHalo::Octave(i) ==> i < n
            && exists|e: nat| e < j && #[trigger] passe_du_halo(n, e).cible == ImageDuHalo::Octave(i),
        passe_du_halo(n, j).cible matches ImageDuHalo::Octave(i) ==> i < n,
        passe_du_halo(n, j).charger ==> (passe_du_halo(n, j).cible == ImageDuHalo::Scene
            || exists|e: nat| e < j && #[trigger] passe_du_halo(n, e).cible == passe_du_halo(n, j).cible),
        passe_du_halo(n, j).charger <==> (passe_du_halo(n, j).operation == Operation::Montee
            || passe_du_halo(n, j).operation == Operation::MonteeFinale),
{
    let p = passe_du_halo(n, j);
    if j == 0 {
    } else if j < n {
        let e = (j - 1) as nat;
        assert(passe_du_halo(n, e).cible == ImageDuHalo::Octave(e as usize));
    } else if j + 1 < 2 * n {
        let i = (2 * n - 2 - j) as nat;
        let e = i + 1;
        assert(passe_du_halo(n, e).cible == ImageDuHalo::Octave(e as usize));
        if i == 0 {
            assert(passe_du_halo(n, 0).cible == ImageDuHalo::Octave(0));
        } else {
            assert(passe_du_halo(n, i).cible == ImageDuHalo::Octave(i as usize));
        }
    } else {
        assert(passe_du_halo(n, 0).cible == ImageDuHalo::Octave(0));
    }
}

/// ⭐ **Le halo est une chaîne.** La première passe lit la scène et la dernière y écrit ; chaque
/// autre passe lit exactement ce que la passe d'avant vient d'écrire. Les `n` premières passes
/// descendent — la passe `j` remplit l'octave `j` — et les suivantes remontent, chacune une octave
/// plus haut que celle qu'elle lit.
pub proof fn lemme_le_halo_est_une_chaine(n: nat, j: nat)
    requires
        0 < n <= OCTAVES_MAX,
        j < 2 * n,
    ensures
        passe_du_halo(n, 0).lecture == ImageDuHalo::Scene,
        passe_du_halo(n, (2 * n - 1) as nat).cible == ImageDuHalo::Scene,
        0 < j ==> passe_du_halo(n, j).lecture == passe_du_halo(n, (j - 1) as nat).cible,
        j < n ==> passe_du_halo(n, j).cible == ImageDuHalo::Octave(j as usize),
        n <= j < 2 * n - 1 ==> (passe_du_halo(n, j).lecture matches ImageDuHalo::Octave(a)
            && passe_du_halo(n, j).cible matches ImageDuHalo::Octave(b) && b + 1 == a),
{
}

/// Le mélange de chaque passe du halo : les intermédiaires se mêlent moitié-moitié à l'octave
/// déjà là ; la dernière s'ajoute à la scène — on ne mélange pas la lumière du monde à moitié avec
/// son halo.
pub open spec fn melange_attendu(operation: Operation) -> Melange {
    match operation {
        Operation::Extraction => Melange::Aucun,
        Operation::Descente => Melange::Aucun,
        Operation::Montee => Melange::Moitie,
        Operation::MonteeFinale => Melange::Additif,
    }
}

/// Les réglages du pipeline d'une passe du halo : tout le halo vit dans le format de la scène.
pub fn reglages_du_halo(operation: Operation, format_scene: i32) -> (r: Reglages)
    ensures
        r == reglages_plein_ecran_attendus(format_scene, melange_attendu(operation)),
{
    let melange = match operation {
        Operation::Extraction => Melange::Aucun,
        Operation::Descente => Melange::Aucun,
        Operation::Montee => Melange::Moitie,
        Operation::MonteeFinale => Melange::Additif,
    };
    reglages_plein_ecran(format_scene, melange)
}

/// Les réglages de la composition : la seule passe qui écrit dans l'image présentée, dans son
/// format, sans mélange.
pub fn reglages_de_la_composition(format_ecran: i32) -> (r: Reglages)
    ensures
        r == reglages_plein_ecran_attendus(format_ecran, Melange::Aucun),
{
    reglages_plein_ecran(format_ecran, Melange::Aucun)
}

/// ⭐ **Une passe du halo charge sa cible si et seulement si son mélange la lit** : la remontée
/// mêle son résultat à l'octave déjà là et la dernière marche l'ajoute à la scène, quand
/// l'extraction et la descente recouvrent chaque pixel.
pub proof fn lemme_une_passe_charge_ce_qu_elle_melange(n: nat, j: nat)
    requires
        0 < n,
        j < 2 * n,
    ensures
        passe_du_halo(n, j).charger <==> etat_attendu(melange_attendu(passe_du_halo(n, j).operation)).actif,
{
}

} // verus!
