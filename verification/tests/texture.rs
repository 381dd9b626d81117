use aegis_engine::oit::OitMode;
use aegis_engine::texture::{lecture, taille_en_octets, Bordure, Filtre, SorteDeTexture};

#[test]
fn un_volume_d_un_seul_texel_reste_un_volume() {
    let l = lecture(SorteDeTexture::Volume);
    assert!(l.volumique);
    assert_eq!(l.filtre, Filtre::Lineaire);
    assert_eq!((l.bordure_u, l.bordure_v, l.bordure_w), (Bordure::BordFige, Bordure::BordFige, Bordure::BordFige));
    assert_eq!(taille_en_octets(1, 1, 1, 4), 4);
}

#[test]
fn un_horizon_boucle_en_azimut_et_se_fige_en_elevation() {
    let l = lecture(SorteDeTexture::Environnement);
    assert!(!l.volumique);
    assert_eq!(l.bordure_u, Bordure::Repetition);
    assert_eq!(l.bordure_v, Bordure::BordFige);
    assert_eq!(l.filtre, Filtre::Lineaire);
}

#[test]
fn une_carte_se_lit_au_plus_proche_voisin() {
    let l = lecture(SorteDeTexture::Plate);
    assert_eq!(l.filtre, Filtre::PlusProche);
    assert_eq!(l.bordure_u, Bordure::Repetition);
    assert_eq!(taille_en_octets(256, 128, 1, 16), 256 * 128 * 16);
    assert_eq!(taille_en_octets(0, 128, 1, 16), 0);
}

#[test]
fn les_modes_de_transparence_se_distinguent() {
    assert_ne!(OitMode::WeightedBlended, OitMode::MomentBased);
    assert_eq!(OitMode::LinkedList, OitMode::LinkedList);
}
