//! L'occlusion ambiante : ce que le ciel ne peut pas apporter, retiré de la scène.
//!
//! Deux passes plein écran, et chacune mélange avec sa cible : la première multiplie l'ambiante
//! par l'occlusion, en place, pour en faire « ce qu'il faut retirer » ; la seconde le retire de
//! la scène. Aucune ne lit deux images, si bien qu'un seul agencement de descripteurs les sert.

use vstd::prelude::*;
use crate::pipeline::{etat_attendu, reglages_plein_ecran, reglages_plein_ecran_attendus, Melange, Reglages};

verus! {

/// Les réglages des deux passes de l'occlusion, dans l'ordre : le calcul, puis la correction.
pub fn reglages_de_l_occlusion(format_scene: i32) -> (r: (Reglages, Reglages))
    ensures
        r.0 == reglages_plein_ecran_attendus(format_scene, Melange::Multiplicatif),
        r.1 == reglages_plein_ecran_attendus(format_scene, Melange::Soustractif),
{
    (reglages_plein_ecran(format_scene, Melange::Multiplicatif),
     reglages_plein_ecran(format_scene, Melange::Soustractif))
}

/// ⭐ Les deux passes de l'occlusion mélangent avec ce que leur cible contient : chacune doit
/// donc la charger, jamais la recouvrir.
pub proof fn lemme_l_occlusion_charge_ses_cibles(format_scene: i32)
    ensures
        etat_attendu(reglages_plein_ecran_attendus(format_scene, Melange::Multiplicatif).melange).actif,
        etat_attendu(reglages_plein_ecran_attendus(format_scene, Melange::Soustractif).melange).actif,
{
}

} // verus!
