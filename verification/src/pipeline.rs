//! La forme d'un pipeline graphique : ce que ses réglages décident, avant toute création.
//!
//! Un format de couleur indéfini veut dire « passe de profondeur pure » : aucun attachement de
//! couleur, et un décalage de profondeur activé et rendu dynamique. Chaque attachement de couleur
//! porte son propre état de mélange, et Vulkan en exige autant que d'attachements.

use vstd::prelude::*;

verus! {

/// Le format Vulkan « indéfini » : une passe qui n'écrit aucune couleur.
pub const FORMAT_INDEFINI: i32 = 0;

/// Comment un dessin se combine avec ce qui est déjà là. Un choix fermé plutôt que des booléens :
/// les combinaisons absurdes (« transparent et additif ») ne sont pas exprimables.
#[derive(Clone, Copy, PartialEq, Eq, Debug, Structural)]
pub enum Melange {
    /// Le dessin remplace. C'est le cas de tout ce qui est opaque.
    Aucun,
    /// Le dessin se pose par-dessus selon son alpha.
    Transparence,
    /// Le dessin s'ajoute à ce qui est là : de la lumière ne cache jamais de la lumière.
    Additif,
    /// Moitié-moitié : appliqué à chaque octave du halo, il donne les poids 1/2, 1/4, 1/8… dont la
    /// somme fait exactement 1.
    Moitie,
    /// Le dessin multiplie ce qui est là.
    Multiplicatif,
    /// Le dessin se retire de ce qui est là : `dst − src`.
    Soustractif,
}

/// Un facteur de mélange Vulkan.
#[derive(Clone, Copy, PartialEq, Eq, Debug, Structural)]
pub enum Facteur {
    Zero,
    Un,
    AlphaSource,
    UnMoinsAlphaSource,
    CouleurConstante,
    AlphaConstant,
    CouleurCible,
    AlphaCible,
}

/// Une opération de mélange Vulkan.
#[derive(Clone, Copy, PartialEq, Eq, Debug, Structural)]
pub enum OperationDeMelange {
    /// `src × fs + dst × fd`.
    Addition,
    /// `dst × fd − src × fs` — et non l'inverse, qui donnerait l'image en négatif.
    SoustractionInverse,
}

/// L'état de mélange d'un attachement de couleur.
#[derive(Clone, Copy, PartialEq, Eq, Debug, Structural)]
pub struct EtatDeMelange {
    pub actif: bool,
    pub source_couleur: Facteur,
    pub cible_couleur: Facteur,
    pub source_alpha: Facteur,
    pub cible_alpha: Facteur,
    pub operation_couleur: OperationDeMelange,
    pub operation_alpha: OperationDeMelange,
}

/// Un état que le pipeline laisse régler au moment du dessin.
#[derive(Clone, Copy, PartialEq, Eq, Debug, Structural)]
pub enum EtatDynamique {
    Viewport,
    Scissor,
    DecalageDeProfondeur,
}

/// Comment un pipeline doit dessiner. Les formats sont des valeurs de `VkFormat`, le nombre
/// d'échantillons un drapeau `VkSampleCountFlags`.
#[derive(Clone, Copy, PartialEq, Eq, Debug, Structural)]
pub struct Reglages {
    /// Format de la cible couleur ; [`FORMAT_INDEFINI`] veut dire « passe de profondeur pure ».
    pub color_format: i32,
    /// Le format d'une seconde cible couleur, quand la passe en écrit deux.
    pub second_format: Option<i32>,
    pub depth_format: Option<i32>,
    /// Ce dessin met-il à jour la profondeur, ou se contente-t-il de la tester ?
    pub depth_write: bool,
    pub melange: Melange,
    /// Faux pour un shader qui fabrique ses propres sommets, comme le fond.
    pub use_vertex_input: bool,
    /// Doit valoir exactement l'échantillonnage des images attachées à la passe.
    pub echantillons: u32,
}

/// Ce que les réglages décident d'un pipeline.
pub struct FormeDuPipeline {
    /// Aucune couleur n'est écrite.
    pub profondeur_seule: bool,
    /// Les formats des attachements de couleur, dans l'ordre.
    pub formats_couleur: Vec<i32>,
    /// Un état de mélange par attachement déclaré.
    pub melanges: Vec<EtatDeMelange>,
    /// Le décalage de profondeur est activé.
    pub decalage_de_profondeur: bool,
    /// Les états réglés au moment du dessin.
    pub etats_dynamiques: Vec<EtatDynamique>,
    /// Le test de profondeur est activé, contre ce format.
    pub format_profondeur: Option<i32>,
    pub ecriture_de_profondeur: bool,
    /// Les sommets et les instances sont lus depuis des tampons.
    pub entree_de_sommets: bool,
    pub echantillons: u32,
}

/// L'état de mélange qu'un choix de mélange décrit.
pub open spec fn etat_attendu(m: Melange) -> EtatDeMelange {
    match m {
        Melange::Aucun => EtatDeMelange {
            actif: false,
            source_couleur: Facteur::Zero,
            cible_couleur: Facteur::Zero,
            source_alpha: Facteur::Zero,
            cible_alpha: Facteur::Zero,
            operation_couleur: OperationDeMelange::Addition,
            operation_alpha: OperationDeMelange::Addition,
        },
        Melange::Transparence => EtatDeMelange {
            actif: true,
            source_couleur: Facteur::AlphaSource,
            cible_couleur: Facteur::UnMoinsAlphaSource,
            source_alpha: Facteur::Un,
            cible_alpha: Facteur::Zero,
            operation_couleur: OperationDeMelange::Addition,
            operation_alpha: OperationDeMelange::Addition,
        },
        Melange::Additif => EtatDeMelange {
            actif: true,
            source_couleur: Facteur::Un,
            cible_couleur: Facteur::Un,
            source_alpha: Facteur::Un,
            cible_alpha: Facteur::Un,
            operation_couleur: OperationDeMelange::Addition,
            operation_alpha: OperationDeMelange::Addition,
        },
        Melange::Moitie => EtatDeMelange {
            actif: true,
            source_couleur: Facteur::CouleurConstante,
            cible_couleur: Facteur::CouleurConstante,
            source_alpha: Facteur::AlphaConstant,
            cible_alpha: Facteur::AlphaConstant,
            operation_couleur: OperationDeMelange::Addition,
            operation_alpha: OperationDeMelange::Addition,
        },
        Melange::Multiplicatif => EtatDeMelange {
            actif: true,
            source_couleur: Facteur::CouleurCible,
            cible_couleur: Facteur::Zero,
            source_alpha: Facteur::AlphaCible,
            cible_alpha: Facteur::Zero,
            operation_couleur: OperationDeMelange::Addition,
            operation_alpha: OperationDeMelange::Addition,
        },
        Melange::Soustractif => EtatDeMelange {
            actif: true,
            source_couleur: Facteur::Un,
            cible_couleur: Facteur::Un,
            source_alpha: Facteur::Un,
            cible_alpha: Facteur::Un,
            operation_couleur: OperationDeMelange::SoustractionInverse,
            operation_alpha: OperationDeMelange::SoustractionInverse,
        },
    }
}

/// Le mot de 32 bits d'indice `i`, lu en petit-boutiste.
pub open spec fn mot(octets: Seq<u8>, i: int) -> u32 {
    (octets[4 * i] + octets[4 * i + 1] * 0x100 + octets[4 * i + 2] * 0x10000
        + octets[4 * i + 3] * 0x1000000) as u32
}

/// Usine de pipelines graphiques.
pub struct PipelineFactory;

impl PipelineFactory {
    /// L'état de mélange d'un attachement, pour un choix de mélange.
    pub fn etat_de_melange(melange: Melange) -> (r: EtatDeMelange)
        ensures
            r == etat_attendu(melange),
    {
        let base = EtatDeMelange {
            actif: true,
            source_couleur: Facteur::Un,
            cible_couleur: Facteur::Un,
            source_alpha: Facteur::Un,
            cible_alpha: Facteur::Un,
            operation_couleur: OperationDeMelange::Addition,
            operation_alpha: OperationDeMelange::Addition,
        };
        match melange {
            Melange::Aucun => EtatDeMelange {
                actif: false,
                source_couleur: Facteur::Zero,
                cible_couleur: Facteur::Zero,
                source_alpha: Facteur::Zero,
                cible_alpha: Facteur::Zero,
                ..base
            },
            Melange::Transparence => EtatDeMelange {
                source_couleur: Facteur::AlphaSource,
                cible_couleur: Facteur::UnMoinsAlphaSource,
                cible_alpha: Facteur::Zero,
                ..base
            },
            Melange::Additif => base,
            Melange::Moitie => EtatDeMelange {
                source_couleur: Facteur::CouleurConstante,
                cible_couleur: Facteur::CouleurConstante,
                source_alpha: Facteur::AlphaConstant,
                cible_alpha: Facteur::AlphaConstant,
                ..base
            },
            Melange::Multiplicatif => EtatDeMelange {
                source_couleur: Facteur::CouleurCible,
                cible_couleur: Facteur::Zero,
                source_alpha: Facteur::AlphaCible,
                cible_alpha: Facteur::Zero,
                ..base
            },
            Melange::Soustractif => EtatDeMelange {
                operation_couleur: OperationDeMelange::SoustractionInverse,
                operation_alpha: OperationDeMelange::SoustractionInverse,
                ..base
            },
        }
    }

    /// Ce que des réglages décident d'un pipeline graphique.
    pub fn forme_du_pipeline(reglages: &Reglages) -> (f: FormeDuPipeline)
        ensures
            f.profondeur_seule == (reglages.color_format == FORMAT_INDEFINI),
            f.formats_couleur@ == (if f.profondeur_seule {
                Seq::<i32>::empty()
            } else {
                match reglages.second_format {
                    None => seq![reglages.color_format],
                    Some(s) => seq![reglages.color_format, s],
                }
            }),
            f.melanges@ == (match reglages.second_format {
                None => seq![etat_attendu(reglages.melange)],
                Some(_) => seq![etat_attendu(reglages.melange), etat_attendu(reglages.melange)],
            }),
            f.decalage_de_profondeur == f.profondeur_seule,
            f.etats_dynamiques@ == (if f.profondeur_seule {
                seq![EtatDynamique::Viewport, EtatDynamique::Scissor, EtatDynamique::DecalageDeProfondeur]
            } else {
                seq![EtatDynamique::Viewport, EtatDynamique::Scissor]
            }),
            f.format_profondeur == reglages.depth_format,
            f.ecriture_de_profondeur == reglages.depth_write,
            f.entree_de_sommets == reglages.use_vertex_input,
            f.echantillons == reglages.echantillons,
            !f.profondeur_seule ==> f.melanges@.len() == f.formats_couleur@.len(),
    {
        let profondeur_seule = reglages.color_format == FORMAT_INDEFINI;
        let etat = Self::etat_de_melange(reglages.melange);
        let mut melanges: Vec<EtatDeMelange> = Vec::new();
        melanges.push(etat);
        let mut formats_couleur: Vec<i32> = Vec::new();
        if !profondeur_seule {
            formats_couleur.push(reglages.color_format);
        }
        match reglages.second_format {
            None => {},
            Some(second) => {
                melanges.push(etat);
                if !profondeur_seule {
                    formats_couleur.push(second);
                }
            },
        }
        let mut etats_dynamiques: Vec<EtatDynamique> = Vec::new();
        etats_dynamiques.push(EtatDynamique::Viewport);
        etats_dynamiques.push(EtatDynamique::Scissor);
        if profondeur_seule {
            etats_dynamiques.push(EtatDynamique::DecalageDeProfondeur);
        }
        proof {
            assert(melanges@ =~= match reglages.second_format {
                None => seq![etat_attendu(reglages.melange)],
                Some(_) => seq![etat_attendu(reglages.melange), etat_attendu(reglages.melange)],
            });
            assert(formats_couleur@ =~= (if profondeur_seule {
                Seq::<i32>::empty()
            } else {
                match reglages.second_format {
                    None => seq![reglages.color_format],
                    Some(s) => seq![reglages.color_format, s],
                }
            }));
            assert(etats_dynamiques@ =~= (if profondeur_seule {
                seq![EtatDynamique::Viewport, EtatDynamique::Scissor, EtatDynamique::DecalageDeProfondeur]
            } else {
                seq![EtatDynamique::Viewport, EtatDynamique::Scissor]
            }));
        }
        FormeDuPipeline {
            profondeur_seule,
            formats_couleur,
            melanges,
            decalage_de_profondeur: profondeur_seule,
            etats_dynamiques,
            format_profondeur: reglages.depth_format,
            ecriture_de_profondeur: reglages.depth_write,
            entree_de_sommets: reglages.use_vertex_input,
            echantillons: reglages.echantillons,
        }
    }

    /// Les mots d'un module SPIR-V donné en octets, lus en petit-boutiste comme sur les machines
    /// que le moteur vise. Le module doit compter un nombre entier de mots.
    pub fn mots_spirv(octets: &[u8]) -> (r: Vec<u32>)
        requires
            octets@.len() % 4 == 0,
        ensures
            r@.len() == octets@.len() / 4,
            forall|i: int| 0 <= i < r@.len() ==> #[trigger] r@[i] == mot(octets@, i),
    {
        let longueur = octets.len();
        let n = longueur / 4;
        let mut r: Vec<u32> = Vec::new();
        let mut i: usize = 0;
        while i < n
            invariant
                longueur == octets@.len(),
                n == octets@.len() / 4,
                octets@.len() % 4 == 0,
                i <= n,
                r@.len() == i,
                forall|j: int| 0 <= j < i ==> #[trigger] r@[j] == mot(octets@, j),
            decreases n - i,
        {
            proof {
                assert(4 * i + 3 < octets@.len()) by (nonlinear_arith)
                    requires
                        i < n,
                        n == octets@.len() / 4,
                        octets@.len() % 4 == 0;
            }
            let b0 = octets[4 * i] as u32;
            let b1 = octets[4 * i + 1] as u32;
            let b2 = octets[4 * i + 2] as u32;
            let b3 = octets[4 * i + 3] as u32;
            r.push(b0 + b1 * 0x100 + b2 * 0x10000 + b3 * 0x1000000);
            i = i + 1;
        }
        r
    }
}

/// Les réglages d'une passe plein écran : une seule cible couleur, sans profondeur, à un seul
/// échantillon, sur un triangle que le shader fabrique lui-même.
pub open spec fn reglages_plein_ecran_attendus(format: i32, melange: Melange) -> Reglages {
    Reglages {
        color_format: format,
        second_format: None,
        depth_format: None,
        depth_write: false,
        melange,
        use_vertex_input: false,
        echantillons: 1,
    }
}

/// Les réglages d'une passe plein écran qui écrit dans `format` avec ce mélange.
pub fn reglages_plein_ecran(format: i32, melange: Melange) -> (r: Reglages)
    ensures
        r == reglages_plein_ecran_attendus(format, melange),
{
    Reglages {
        color_format: format,
        second_format: None,
        depth_format: None,
        depth_write: false,
        melange,
        use_vertex_input: false,
        echantillons: 1,
    }
}

/// Ce qu'un facteur de mélange vaut sur le canal de couleur, pour une source d'alpha `sa`, une
/// cible `d` d'alpha `da` et une constante de mélange `k` d'alpha `ka` (l'unité vaut 1).
pub open spec fn facteur_couleur(f: Facteur, sa: int, d: int, da: int, k: int, ka: int) -> int {
    match f {
        Facteur::Zero => 0,
        Facteur::Un => 1,
        Facteur::AlphaSource => sa,
        Facteur::UnMoinsAlphaSource => 1 - sa,
        Facteur::CouleurConstante => k,
        Facteur::AlphaConstant => ka,
        Facteur::CouleurCible => d,
        Facteur::AlphaCible => da,
    }
}

/// Ce qu'un facteur de mélange vaut sur le canal alpha : une couleur y est prise par son alpha.
pub open spec fn facteur_alpha(f: Facteur, sa: int, da: int, ka: int) -> int {
    match f {
        Facteur::Zero => 0,
        Facteur::Un => 1,
        Facteur::AlphaSource => sa,
        Facteur::UnMoinsAlphaSource => 1 - sa,
        Facteur::CouleurConstante => ka,
        Facteur::AlphaConstant => ka,
        Facteur::CouleurCible => da,
        Facteur::AlphaCible => da,
    }
}

/// L'opération qui combine la source pondérée `s` et la cible pondérée `d`.
pub open spec fn combiner(op: OperationDeMelange, s: int, d: int) -> int {
    match op {
        OperationDeMelange::Addition => s + d,
        OperationDeMelange::SoustractionInverse => d - s,
    }
}

/// La couleur qu'un état de mélange écrit, pour une source `s` d'alpha `sa` posée sur une cible
/// `d` d'alpha `da`, avec la constante `k` d'alpha `ka`. Sans mélange, la source remplace.
pub open spec fn couleur_ecrite(e: EtatDeMelange, s: int, sa: int, d: int, da: int, k: int, ka: int) -> int {
    if !e.actif {
        s
    } else {
        combiner(e.operation_couleur, s * facteur_couleur(e.source_couleur, sa, d, da, k, ka),
            d * facteur_couleur(e.cible_couleur, sa, d, da, k, ka))
    }
}

/// L'alpha qu'un état de mélange écrit.
pub open spec fn alpha_ecrit(e: EtatDeMelange, sa: int, da: int, ka: int) -> int {
    if !e.actif {
        sa
    } else {
        combiner(e.operation_alpha, sa * facteur_alpha(e.source_alpha, sa, da, ka),
            da * facteur_alpha(e.cible_alpha, sa, da, ka))
    }
}

/// ⭐ **Ce que chaque mélange écrit.** Aucun : la source remplace la cible. Transparence : la
/// source pondérée par son alpha, la cible par son complément. Additif : la somme. Moitié-moitié :
/// la source et la cible pondérées toutes deux par la constante de mélange — à la constante ½,
/// leur moyenne. Multiplicatif : le produit. Soustractif : la cible moins la source.
pub proof fn lemme_ce_que_chaque_melange_ecrit(s: int, sa: int, d: int, da: int, k: int, ka: int)
    ensures
        couleur_ecrite(etat_attendu(Melange::Aucun), s, sa, d, da, k, ka) == s,
        alpha_ecrit(etat_attendu(Melange::Aucun), sa, da, ka) == sa,
        couleur_ecrite(etat_attendu(Melange::Transparence), s, sa, d, da, k, ka) == sa * s + (1 - sa) * d,
        alpha_ecrit(etat_attendu(Melange::Transparence), sa, da, ka) == sa,
        couleur_ecrite(etat_attendu(Melange::Additif), s, sa, d, da, k, ka) == s + d,
        alpha_ecrit(etat_attendu(Melange::Additif), sa, da, ka) == sa + da,
        couleur_ecrite(etat_attendu(Melange::Moitie), s, sa, d, da, k, ka) == k * s + k * d,
        alpha_ecrit(etat_attendu(Melange::Moitie), sa, da, ka) == ka * sa + ka * da,
        couleur_ecrite(etat_attendu(Melange::Multiplicatif), s, sa, d, da, k, ka) == s * d,
        alpha_ecrit(etat_attendu(Melange::Multiplicatif), sa, da, ka) == sa * da,
        couleur_ecrite(etat_attendu(Melange::Soustractif), s, sa, d, da, k, ka) == d - s,
        alpha_ecrit(etat_attendu(Melange::Soustractif), sa, da, ka) == da - sa,
{
    assert(sa * s + d * (1 - sa) == sa * s + (1 - sa) * d) by (nonlinear_arith);
    assert(s * sa == sa * s) by (nonlinear_arith);
    assert(s * k + d * k == k * s + k * d) by (nonlinear_arith);
    assert(sa * ka + da * ka == ka * sa + ka * da) by (nonlinear_arith);
}

/// ⭐ Seul « aucun » n'active pas le mélange : tout autre choix lit ce que la cible contient déjà,
/// et une passe qui l'emploie doit donc charger sa cible plutôt que la recouvrir.
pub proof fn lemme_seul_aucun_ne_lit_pas_la_cible(m: Melange)
    ensures
        etat_attendu(m).actif <==> m != Melange::Aucun,
        m == Melange::Soustractif <==> etat_attendu(m).operation_couleur == OperationDeMelange::SoustractionInverse,
{
}

} // verus!
