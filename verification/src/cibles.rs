//! Les cibles de rendu : là où l'image se fabrique avant d'être montrée.
//!
//! Ce module décide, à partir de ce que la carte annonce, combien d'échantillons par pixel on
//! demande, dans quel format la scène se dessine, et quelles images la passe de scène attache —
//! lesquelles sont multi-échantillonnées et passagères, lesquelles sont relues ensuite.
//!
//! Les masques de bits sont ceux de Vulkan : un drapeau de `k` échantillons vaut `k`, et les
//! capacités d'un format, les usages d'une image et les propriétés d'une mémoire gardent leurs
//! valeurs de la spécification.

use vstd::prelude::*;

verus! {

/// Usage d'image : lue par un shader.
pub const USAGE_ECHANTILLONNEE: u32 = 0x4;
/// Usage d'image : attachement de couleur.
pub const USAGE_COULEUR: u32 = 0x10;
/// Usage d'image : attachement de profondeur.
pub const USAGE_PROFONDEUR: u32 = 0x20;
/// Usage d'image : ne quitte jamais la passe qui l'écrit.
pub const USAGE_PASSAGERE: u32 = 0x40;

/// Mémoire locale à la carte.
pub const MEMOIRE_LOCALE: u32 = 0x1;
/// Mémoire que le pilote n'engage que si elle sert.
pub const MEMOIRE_PARESSEUSE: u32 = 0x10;

/// Capacité de format : échantillonnable.
pub const CAPACITE_ECHANTILLONNEE: u32 = 0x1;
/// Capacité de format : attachement de couleur.
pub const CAPACITE_COULEUR: u32 = 0x80;
/// Capacité de format : attachement de couleur mélangeable.
pub const CAPACITE_MELANGE: u32 = 0x100;
/// Capacité de format : échantillonnage filtré linéairement.
pub const CAPACITE_FILTRE_LINEAIRE: u32 = 0x1000;

/// Ce qu'une cible de scène doit savoir faire. Les quatre sont nécessaires : sans le filtrage
/// linéaire par exemple, le halo deviendrait une mosaïque sans qu'aucune erreur ne soit levée.
pub const CAPACITES_REQUISES: u32 = 0x1181;

/// Combien d'échantillons par pixel on demande quand la carte le permet. Un plafond, pas un
/// réglage : la valeur retenue est le plus grand niveau supporté qui ne le dépasse pas.
pub const ECHANTILLONS_VOULUS: u32 = 4;

/// Un drapeau d'échantillonnage multiple que l'on sait demander.
pub open spec fn est_un_niveau(n: u32) -> bool {
    n == 2 || n == 4 || n == 8 || n == 16 || n == 32 || n == 64
}

/// Le masque `supportes` contient le drapeau `n`.
pub open spec fn contient(masque: u32, n: u32) -> bool {
    masque & n == n
}

/// Le niveau `n` convient : il ne dépasse pas ce qui est voulu, et la carte le supporte.
pub open spec fn convient(supportes: u32, voulus: u32, n: u32) -> bool {
    n <= voulus && contient(supportes, n)
}

/// Choisit le nombre d'échantillons : le plus grand niveau supporté qui ne dépasse pas `voulus`,
/// ou un seul échantillon si aucun ne convient — jamais d'échec ici.
///
/// `supportes` doit déjà être l'intersection de ce que la couleur et la profondeur supportent.
pub fn echantillons_retenus(supportes: u32, voulus: u32) -> (r: u32)
    ensures
        r == 1 || est_un_niveau(r),
        r != 1 ==> convient(supportes, voulus, r),
        forall|n: u32| est_un_niveau(n) && n > r ==> !convient(supportes, voulus, n),
{
    let mut n: u32 = 64;
    while n >= 2
        invariant
            n == 1 || est_un_niveau(n) || n == 64,
            forall|m: u32| est_un_niveau(m) && m > n ==> !convient(supportes, voulus, m),
        decreases n,
    {
        if n <= voulus && supportes & n == n {
            return n;
        }
        n = n / 2;
    }
    1
}

/// Le format dans lequel la scène se dessine.
#[derive(Clone, Copy, Debug, PartialEq, Eq, Structural)]
pub enum FormatHdr {
    /// Trois canaux flottants tenant dans 32 bits : le poids de l'image d'écran, pour une plage
    /// 65 000 fois plus large.
    Compact,
    /// Quatre canaux flottants sur 16 bits : deux fois plus lourd, et universel.
    Repli,
}

/// Choisit le format de la scène : le compact s'il est pleinement utilisable, le repli sinon.
/// Les capacités du repli ne sont pas consultées : Vulkan les exige de toute carte.
pub fn format_hdr(compact: u32, repli: u32) -> (r: FormatHdr)
    ensures
        r == (if contient(compact, CAPACITES_REQUISES) { FormatHdr::Compact } else { FormatHdr::Repli }),
{
    if compact & CAPACITES_REQUISES == CAPACITES_REQUISES {
        FormatHdr::Compact
    } else {
        FormatHdr::Repli
    }
}

/// Ce qu'il faut savoir pour allouer une image de la passe de scène.
#[derive(Clone, Copy, Debug, PartialEq, Eq, Structural)]
pub struct DescriptionImage {
    /// Les usages déclarés, sans le drapeau de passage.
    pub usage: u32,
    /// Le drapeau d'échantillonnage.
    pub echantillons: u32,
    /// L'image ne quitte jamais la passe : sur un GPU à tuiles, elle peut rester en mémoire de
    /// tuile.
    pub passagere: bool,
    /// Une image de profondeur plutôt que de couleur.
    pub profondeur: bool,
}

/// Les images de la passe de scène.
#[derive(Clone, Copy, Debug, PartialEq, Eq, Structural)]
pub struct PlanDesCibles {
    /// La couleur multi-échantillonnée, absente avec un seul échantillon.
    pub couleur: Option<DescriptionImage>,
    /// La scène en lumière, moyennée : ce que le halo lit et ce que la composition présente.
    pub resolue: DescriptionImage,
    /// L'ambiante multi-échantillonnée, qui suit la couleur.
    pub ambiante: Option<DescriptionImage>,
    /// L'ambiante réduite, que l'occlusion lit.
    pub ambiante_resolue: DescriptionImage,
    /// La profondeur de la passe.
    pub profondeur: DescriptionImage,
    /// La profondeur à un seul échantillon, lisible par un shader, quand il y en a plusieurs.
    pub profondeur_lisible: Option<DescriptionImage>,
}

/// Une image relue après sa passe : un seul échantillon, jamais passagère.
pub open spec fn relue(usage: u32, profondeur: bool) -> DescriptionImage {
    DescriptionImage { usage, echantillons: 1, passagere: false, profondeur }
}

/// Le plan des images de la scène pour un nombre d'échantillons donné.
pub open spec fn plan_attendu(echantillons: u32) -> PlanDesCibles {
    let multi = echantillons != 1;
    let couleur_multi = DescriptionImage {
        usage: USAGE_COULEUR, echantillons, passagere: true, profondeur: false,
    };
    PlanDesCibles {
        couleur: if multi { Some(couleur_multi) } else { None },
        resolue: relue(USAGE_COULEUR | USAGE_ECHANTILLONNEE, false),
        ambiante: if multi { Some(couleur_multi) } else { None },
        ambiante_resolue: relue(USAGE_COULEUR | USAGE_ECHANTILLONNEE, false),
        profondeur: DescriptionImage {
            usage: if multi { USAGE_PROFONDEUR } else { USAGE_PROFONDEUR | USAGE_ECHANTILLONNEE },
            echantillons,
            passagere: multi,
            profondeur: true,
        },
        profondeur_lisible: if multi {
            Some(relue(USAGE_PROFONDEUR | USAGE_ECHANTILLONNEE, true))
        } else {
            None
        },
    }
}

/// L'image est cohérente : si elle est lue par un shader, elle n'a qu'un échantillon et n'est
/// pas passagère ; si elle est multi-échantillonnée, elle est passagère.
pub open spec fn coherente(d: DescriptionImage) -> bool {
    &&& contient(d.usage, USAGE_ECHANTILLONNEE) ==> d.echantillons == 1 && !d.passagere
    &&& d.echantillons != 1 ==> d.passagere
}

/// Décide quelles images la passe de scène attache, avec un nombre d'échantillons donné.
pub fn plan_des_cibles(echantillons: u32) -> (p: PlanDesCibles)
    ensures
        p == plan_attendu(echantillons),
{
    let multi = echantillons != 1;
    let couleur_multi = DescriptionImage {
        usage: USAGE_COULEUR, echantillons, passagere: true, profondeur: false,
    };
    let lue_couleur = DescriptionImage {
        usage: USAGE_COULEUR | USAGE_ECHANTILLONNEE, echantillons: 1, passagere: false, profondeur: false,
    };
    PlanDesCibles {
        couleur: if multi { Some(couleur_multi) } else { None },
        resolue: lue_couleur,
        ambiante: if multi { Some(couleur_multi) } else { None },
        ambiante_resolue: lue_couleur,
        profondeur: DescriptionImage {
            usage: if multi { USAGE_PROFONDEUR } else { USAGE_PROFONDEUR | USAGE_ECHANTILLONNEE },
            echantillons,
            passagere: multi,
            profondeur: true,
        },
        profondeur_lisible: if multi {
            Some(DescriptionImage {
                usage: USAGE_PROFONDEUR | USAGE_ECHANTILLONNEE, echantillons: 1, passagere: false,
                profondeur: true,
            })
        } else {
            None
        },
    }
}

/// ⭐ Aucune image du plan n'est à la fois lue par un shader et passagère ou multi-échantillonnée,
/// et toute image multi-échantillonnée est passagère ; la passe moyenne ses échantillons si et
/// seulement s'il y en a plusieurs, et il y a toujours exactement une profondeur lisible.
pub proof fn lemme_le_plan_est_coherent(echantillons: u32)
    ensures
        ({
            let p = plan_attendu(echantillons);
            &&& p.couleur matches Some(d) ==> coherente(d)
            &&& coherente(p.resolue)
            &&& p.ambiante matches Some(d) ==> coherente(d)
            &&& coherente(p.ambiante_resolue)
            &&& coherente(p.profondeur)
            &&& p.profondeur_lisible matches Some(d) ==> coherente(d)
            &&& p.couleur.is_some() <==> echantillons != 1
            &&& p.ambiante.is_some() == p.couleur.is_some()
            &&& (contient(p.profondeur.usage, USAGE_ECHANTILLONNEE) <==> p.profondeur_lisible.is_none())
        }),
{
    assert(USAGE_COULEUR & USAGE_ECHANTILLONNEE != USAGE_ECHANTILLONNEE) by (bit_vector);
    assert(USAGE_PROFONDEUR & USAGE_ECHANTILLONNEE != USAGE_ECHANTILLONNEE) by (bit_vector);
    assert((USAGE_COULEUR | USAGE_ECHANTILLONNEE) & USAGE_ECHANTILLONNEE == USAGE_ECHANTILLONNEE)
        by (bit_vector);
    assert((USAGE_PROFONDEUR | USAGE_ECHANTILLONNEE) & USAGE_ECHANTILLONNEE == USAGE_ECHANTILLONNEE)
        by (bit_vector);
}

/// ⭐ **La scène moyennée se relit.** Quel que soit l'échantillonnage, la scène résolue et
/// l'ambiante résolue sont à la fois des attachements de couleur, où la passe les écrit, et des
/// images échantillonnées, que le halo, l'occlusion et la composition relisent — d'un seul
/// échantillon, en couleur. La profondeur est toujours un attachement de profondeur, et il y a
/// toujours une profondeur qu'un shader peut lire. Une couleur multi-échantillonnée n'est qu'un
/// attachement de couleur, jamais relue.
pub proof fn lemme_les_images_resolues_se_relisent(echantillons: u32)
    ensures
        ({
            let p = plan_attendu(echantillons);
            &&& contient(p.resolue.usage, USAGE_COULEUR)
            &&& contient(p.resolue.usage, USAGE_ECHANTILLONNEE)
            &&& p.resolue.echantillons == 1 && !p.resolue.profondeur
            &&& contient(p.ambiante_resolue.usage, USAGE_COULEUR)
            &&& contient(p.ambiante_resolue.usage, USAGE_ECHANTILLONNEE)
            &&& p.ambiante_resolue.echantillons == 1 && !p.ambiante_resolue.profondeur
            &&& contient(p.profondeur.usage, USAGE_PROFONDEUR) && p.profondeur.profondeur
            &&& p.profondeur.echantillons == echantillons
            &&& (contient(p.profondeur.usage, USAGE_ECHANTILLONNEE) || (p.profondeur_lisible matches Some(d)
                && contient(d.usage, USAGE_ECHANTILLONNEE) && d.profondeur))
            &&& p.couleur matches Some(d) ==> contient(d.usage, USAGE_COULEUR)
                && !contient(d.usage, USAGE_ECHANTILLONNEE) && d.echantillons == echantillons
            &&& p.ambiante matches Some(d) ==> contient(d.usage, USAGE_COULEUR)
                && !contient(d.usage, USAGE_ECHANTILLONNEE) && d.echantillons == echantillons
        }),
{
    assert((USAGE_COULEUR | USAGE_ECHANTILLONNEE) & USAGE_COULEUR == USAGE_COULEUR) by (bit_vector);
    assert((USAGE_COULEUR | USAGE_ECHANTILLONNEE) & USAGE_ECHANTILLONNEE == USAGE_ECHANTILLONNEE)
        by (bit_vector);
    assert(USAGE_COULEUR & USAGE_COULEUR == USAGE_COULEUR) by (bit_vector);
    assert(USAGE_COULEUR & USAGE_ECHANTILLONNEE != USAGE_ECHANTILLONNEE) by (bit_vector);
    assert(USAGE_PROFONDEUR & USAGE_PROFONDEUR == USAGE_PROFONDEUR) by (bit_vector);
    assert((USAGE_PROFONDEUR | USAGE_ECHANTILLONNEE) & USAGE_PROFONDEUR == USAGE_PROFONDEUR) by (bit_vector);
    assert((USAGE_PROFONDEUR | USAGE_ECHANTILLONNEE) & USAGE_ECHANTILLONNEE == USAGE_ECHANTILLONNEE)
        by (bit_vector);
}

/// Les usages à déclarer pour allouer une image : une image passagère l'annonce au pilote.
pub fn usage_a_declarer(d: &DescriptionImage) -> (r: u32)
    ensures
        r == (if d.passagere { d.usage | USAGE_PASSAGERE } else { d.usage }),
{
    if d.passagere {
        d.usage | USAGE_PASSAGERE
    } else {
        d.usage
    }
}

/// Les propriétés de mémoire à essayer, dans l'ordre : une image passagère tente d'abord une
/// mémoire paresseuse, que le pilote n'engage jamais ; toute image se rabat ensuite sur la mémoire
/// locale. Une image relue n'a jamais de mémoire paresseuse.
pub fn memoires_a_essayer(passagere: bool) -> (r: Vec<u32>)
    ensures
        r@ == (if passagere { seq![MEMOIRE_PARESSEUSE, MEMOIRE_LOCALE] } else { seq![MEMOIRE_LOCALE] }),
{
    let mut r: Vec<u32> = Vec::new();
    if passagere {
        r.push(MEMOIRE_PARESSEUSE);
    }
    r.push(MEMOIRE_LOCALE);
    proof {
        if passagere {
            assert(r@ =~= seq![MEMOIRE_PARESSEUSE, MEMOIRE_LOCALE]);
        } else {
            assert(r@ =~= seq![MEMOIRE_LOCALE]);
        }
    }
    r
}

} // verus!
