use aegis_engine::file::{lots, Dessin, File, Lot};

type DessinDeTest = Dessin<[f32; 16], [f32; 4]>;

const IDENTITE: [f32; 16] = [
    1.0, 0.0, 0.0, 0.0, 0.0, 1.0, 0.0, 0.0, 0.0, 0.0, 1.0, 0.0, 0.0, 0.0, 0.0, 1.0,
];

fn dessin(maillage: u16, ombre: bool) -> DessinDeTest {
    Dessin {
        maillage,
        modele: IDENTITE,
        teinte: [1.0; 4],
        params: [0.0; 4],
        porte_une_ombre: ombre,
    }
}

#[test]
fn regrouper_reduit_vraiment_les_changements_de_maillage() {
    let mut f = File::nouvelle();
    // L'ordre le plus defavorable : on alterne a chaque objet.
    for _ in 0..50 {
        f.ajouter(dessin(1, true));
        f.ajouter(dessin(2, true));
        f.ajouter(dessin(3, true));
    }
    assert_eq!(
        f.changements_de_maillage(),
        150,
        "en alternant, chaque objet coute un changement"
    );

    f.regrouper();
    assert_eq!(
        f.changements_de_maillage(),
        3,
        "apres regroupement il ne doit rester qu'un changement par maillage distinct"
    );
    assert_eq!(f.dessins().len(), 150, "regrouper ne perd aucun objet");
}

#[test]
fn le_regroupement_conserve_l_ordre_au_sein_d_un_maillage() {
    let mut f = File::nouvelle();
    for i in 0..5u16 {
        let mut d = dessin(if i % 2 == 0 { 7 } else { 4 }, true);
        // On marque chaque objet pour pouvoir le reconnaitre apres le tri.
        d.teinte = [i as f32, 0.0, 0.0, 1.0];
        f.ajouter(d);
    }
    f.regrouper();

    let marques: Vec<f32> = f.dessins().iter().map(|d| d.teinte[0]).collect();
    // maillage 4 d'abord (indices impairs 1, 3), puis maillage 7 (indices pairs 0, 2, 4).
    assert_eq!(marques, vec![1.0, 3.0, 0.0, 2.0, 4.0], "l'ordre interne doit tenir");
}

#[test]
fn la_passe_d_ombre_ne_voit_que_les_porteurs() {
    let mut f = File::nouvelle();
    f.ajouter(dessin(1, true));
    f.ajouter(dessin(2, false));
    f.ajouter(dessin(3, true));

    let porteurs: Vec<u16> = f.porteurs_d_ombre().iter().map(|d| d.maillage).collect();
    assert_eq!(porteurs, vec![1, 3]);
    assert_eq!(f.dessins().len(), 3, "l'ecran, lui, voit tout");
}

#[test]
fn vider_libere_la_file_sans_rendre_la_memoire() {
    let mut f = File::nouvelle();
    assert!(f.est_vide());
    for _ in 0..1000 {
        f.ajouter(dessin(1, true));
    }
    let capacite = f.dessins.capacity();
    f.vider();
    assert!(f.est_vide());
    assert_eq!(f.changements_de_maillage(), 0, "une file vide ne change rien");
    assert!(
        f.dessins.capacity() >= capacite,
        "vider ne doit pas rendre la memoire, sinon on reallouerait a chaque image"
    );
}

#[test]
fn un_maillage_hors_table_est_ignore_et_compte() {
    let mut f = File::nouvelle();
    f.ajouter(dessin(0, true));
    f.ajouter(dessin(5, true));
    f.ajouter(dessin(2, false));
    f.ajouter(dessin(3, true));
    let (indices, ignores) = f.a_dessiner(3);
    assert_eq!(indices, vec![0, 2]);
    assert_eq!(ignores, 2);
}

#[test]
fn regrouper_une_file_deja_rangee_ne_change_rien() {
    let mut f = File::nouvelle();
    for m in [1u16, 1, 2, 5, 5, 5] {
        f.ajouter(dessin(m, true));
    }
    assert_eq!(f.changements_de_maillage(), 3);
    f.regrouper();
    let maillages: Vec<u16> = f.dessins().iter().map(|d| d.maillage).collect();
    assert_eq!(maillages, vec![1, 1, 2, 5, 5, 5]);
    assert_eq!(f.changements_de_maillage(), 3);
}

#[test]
fn les_lots_suivent_les_changements_de_maillage() {
    let mut f = File::nouvelle();
    for m in [3u16, 3, 1, 1, 1, 3, 2] {
        f.ajouter(dessin(m, true));
    }
    let l = lots(f.dessins());
    assert_eq!(
        l,
        vec![
            Lot { maillage: 3, debut: 0, nombre: 2 },
            Lot { maillage: 1, debut: 2, nombre: 3 },
            Lot { maillage: 3, debut: 5, nombre: 1 },
            Lot { maillage: 2, debut: 6, nombre: 1 },
        ]
    );
    assert_eq!(l.len(), f.changements_de_maillage());
    f.regrouper();
    assert_eq!(lots(f.dessins()).len(), 3, "regroupée, la file ne fait plus qu'un lot par maillage");
    assert!(lots::<[f32; 16], [f32; 4]>(&[]).is_empty());
}
