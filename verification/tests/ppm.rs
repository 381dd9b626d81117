use aegis_engine::ppm::{debut_de_l_en_tete, decoder_ppm, image_des_mots_lus, pixels_rgba, ErreurPpm};

fn fichier(en_tete: &str, pixels: &[u8]) -> Vec<u8> {
    let mut o = en_tete.as_bytes().to_vec();
    o.extend_from_slice(pixels);
    o
}

#[test]
fn une_image_se_lit_avec_ses_commentaires() {
    let o = fichier("P6\n# une image\n# de deux pixels\n2 1\n255\n", b"ABCDEF");
    let image = decoder_ppm(&o).expect("une image lisible");
    assert_eq!((image.largeur, image.hauteur), (2, 1));
    assert_eq!(image.rgba, vec![b'A', b'B', b'C', 255, b'D', b'E', b'F', 255]);
}

#[test]
fn les_pixels_sont_les_derniers_octets_du_fichier() {
    // Une image de 2 x 2 : les douze derniers octets, quoi qu'il y ait avant.
    let pixels: Vec<u8> = (0..12).map(|i| b'a' + i).collect();
    let o = fichier("P6 2 2 255 ", &pixels);
    let image = decoder_ppm(&o).unwrap();
    assert_eq!(image.rgba.len(), 16);
    assert_eq!(&image.rgba[12..16], &[b'j', b'k', b'l', 255]);
}

#[test]
fn une_signature_etrangere_ou_un_fichier_court_ne_se_lisent_pas() {
    assert!(matches!(decoder_ppm(b"P5\n2 1\n255\nABCDEF"), Err(ErreurPpm::FormatNonSupporte)));
    assert!(matches!(decoder_ppm(b"P6\n1 1\n255"), Err(ErreurPpm::FormatNonSupporte)));
    assert!(matches!(decoder_ppm(b""), Err(ErreurPpm::FormatNonSupporte)));
}

#[test]
fn un_en_tete_incomplet_ou_nul_ne_se_lit_pas() {
    assert!(matches!(decoder_ppm(b"P6\n2 1\n          "), Err(ErreurPpm::FormatNonSupporte)));
    assert!(matches!(decoder_ppm(b"P6\n0 1 255\nABCDEF"), Err(ErreurPpm::FormatNonSupporte)));
    assert!(matches!(decoder_ppm(b"P6\nx 1 255\nABCDEF"), Err(ErreurPpm::FormatNonSupporte)));
}

#[test]
fn un_commentaire_qui_ne_finit_jamais_est_signale() {
    assert!(matches!(decoder_ppm(b"P6\n# jusqu'au bout"), Err(ErreurPpm::EnTeteInacheve)));
}

#[test]
fn une_image_plus_grande_que_le_fichier_est_signalee() {
    assert!(matches!(decoder_ppm(b"P6\n100 100 255\nABCDEF"), Err(ErreurPpm::ImageTropGrande)));
    assert!(matches!(
        decoder_ppm(b"P6\n65536 65536 255\nABCDEF"),
        Err(ErreurPpm::ImageTropGrande)
    ));
}

#[test]
fn des_pixels_qui_ne_sont_pas_de_l_utf8_dans_la_fenetre_d_en_tete_la_rendent_illisible() {
    // La fenêtre de trente octets déborde sur les pixels : s'ils ne sont pas de l'UTF-8, l'en-tête
    // tout entier est tenu pour illisible.
    let o = fichier("P6\n2 1\n255\n", &[0xff, 0xff, 0xff, 0xff, 0xff, 0xff]);
    assert!(matches!(decoder_ppm(&o), Err(ErreurPpm::FormatNonSupporte)));
}

#[test]
fn les_blancs_et_commentaires_sont_sautes() {
    assert_eq!(debut_de_l_en_tete(b"P6\n\t # c\n  2 1 255\n"), 11);
    assert_eq!(debut_de_l_en_tete(b"P6 x"), 3);
    assert_eq!(debut_de_l_en_tete(b"P6\n#"), 5, "un commentaire jusqu'au bout mène au-delà de la fin");
    assert_eq!(pixels_rgba(&[1, 2, 3]), vec![1, 2, 3, 255]);
}

#[test]
fn les_mots_de_l_en_tete_decident_des_dimensions() {
    let o = b"xxxxRGBrgb";
    let image = image_des_mots_lus(o, &["2", "+1", "255"]).unwrap();
    assert_eq!((image.largeur, image.hauteur), (2, 1));
    assert_eq!(image.rgba, vec![b'R', b'G', b'B', 255, b'r', b'g', b'b', 255]);
    assert!(matches!(image_des_mots_lus(o, &["2", "1"]), Err(ErreurPpm::FormatNonSupporte)));
    assert!(matches!(image_des_mots_lus(o, &["2", "-1", "255"]), Err(ErreurPpm::FormatNonSupporte)));
    assert!(matches!(image_des_mots_lus(o, &["4294967296", "1", "255"]), Err(ErreurPpm::FormatNonSupporte)));
    assert!(matches!(image_des_mots_lus(o, &["2", "2", "255"]), Err(ErreurPpm::ImageTropGrande)));
    // La valeur maximale n'est pas lue : seule sa présence compte.
    assert!(image_des_mots_lus(o, &["1", "1", "n'importe quoi"]).is_ok());
}
