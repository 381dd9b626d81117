use aegis_engine::ecran::{
    etendues_des_octaves, octaves, plan_de_diffusion, reglages_de_la_composition, reglages_du_halo,
    ImageDuHalo, Operation, PasseDuHalo, OCTAVES_MAX, PLUS_PETIT_NIVEAU,
};
use aegis_engine::pipeline::Melange;

#[test]
fn doubler_la_resolution_ajoute_une_octave() {
    assert_eq!(octaves(256, 256) + 1, octaves(512, 512));
    assert_eq!(octaves(64, 64) + 1, octaves(128, 128));
}

#[test]
fn aucune_octave_ne_descend_sous_le_plus_petit_niveau() {
    for (largeur, hauteur) in [(1920, 1080), (800, 600), (320, 240), (100, 37)] {
        let combien = octaves(largeur, hauteur);
        let plus_petit = u32::min(largeur, hauteur) >> combien as u32;
        assert!(
            combien == 0 || plus_petit >= PLUS_PETIT_NIVEAU,
            "{largeur}x{hauteur} : {combien} octaves donnent un cote de {plus_petit}"
        );
    }
}

#[test]
fn une_fenetre_minuscule_ne_produit_aucune_octave() {
    for (largeur, hauteur) in [(1, 1), (8, 8), (15, 400), (1920, 3)] {
        assert_eq!(
            octaves(largeur, hauteur),
            0,
            "{largeur}x{hauteur} ne peut porter aucune octave"
        );
    }
}

#[test]
fn le_nombre_d_octaves_reste_borne() {
    assert!(octaves(u32::MAX, u32::MAX) <= OCTAVES_MAX);
    assert_eq!(octaves(7680, 4320), OCTAVES_MAX);
}

#[test]
fn doubler_une_image_trop_petite_n_ajoute_rien() {
    // Sous le plus petit niveau, doubler la taille ne suffit pas encore à porter une octave.
    assert_eq!(octaves(7, 7), 0);
    assert_eq!(octaves(14, 14), 0);
    assert_eq!(octaves(16, 16), 1);
}

#[test]
fn les_octaves_sont_chacune_la_moitie_de_la_precedente() {
    let e = etendues_des_octaves(1920, 1080);
    assert_eq!(e.len(), octaves(1920, 1080));
    assert_eq!(e, vec![(960, 540), (480, 270), (240, 135), (120, 67), (60, 33), (30, 16)]);
    assert!(etendues_des_octaves(8, 8).is_empty());
}

#[test]
fn le_halo_descend_puis_remonte_et_finit_dans_la_scene() {
    let plan = plan_de_diffusion(3, true);
    let attendu = vec![
        PasseDuHalo { operation: Operation::Extraction, lecture: ImageDuHalo::Scene, cible: ImageDuHalo::Octave(0), charger: false },
        PasseDuHalo { operation: Operation::Descente, lecture: ImageDuHalo::Octave(0), cible: ImageDuHalo::Octave(1), charger: false },
        PasseDuHalo { operation: Operation::Descente, lecture: ImageDuHalo::Octave(1), cible: ImageDuHalo::Octave(2), charger: false },
        PasseDuHalo { operation: Operation::Montee, lecture: ImageDuHalo::Octave(2), cible: ImageDuHalo::Octave(1), charger: true },
        PasseDuHalo { operation: Operation::Montee, lecture: ImageDuHalo::Octave(1), cible: ImageDuHalo::Octave(0), charger: true },
        PasseDuHalo { operation: Operation::MonteeFinale, lecture: ImageDuHalo::Octave(0), cible: ImageDuHalo::Scene, charger: true },
    ];
    assert_eq!(plan, attendu);
}

#[test]
fn un_halo_eteint_ou_sans_octave_ne_fait_rien() {
    assert!(plan_de_diffusion(4, false).is_empty());
    assert!(plan_de_diffusion(0, true).is_empty());
    let seul = plan_de_diffusion(1, true);
    assert_eq!(seul.len(), 2);
    assert_eq!(seul[1].operation, Operation::MonteeFinale);
}

#[test]
fn la_remontee_melange_et_la_derniere_marche_ajoute() {
    let hdr = 122;
    assert_eq!(reglages_du_halo(Operation::Extraction, hdr).melange, Melange::Aucun);
    assert_eq!(reglages_du_halo(Operation::Descente, hdr).melange, Melange::Aucun);
    assert_eq!(reglages_du_halo(Operation::Montee, hdr).melange, Melange::Moitie);
    let finale = reglages_du_halo(Operation::MonteeFinale, hdr);
    assert_eq!(finale.melange, Melange::Additif);
    assert_eq!(finale.color_format, hdr, "tout le halo vit dans le format de la scène");
    assert_eq!(finale.echantillons, 1);
    assert!(finale.depth_format.is_none());
    let composition = reglages_de_la_composition(50);
    assert_eq!(composition.color_format, 50);
    assert_eq!(composition.melange, Melange::Aucun);
    assert!(!composition.use_vertex_input);
}
