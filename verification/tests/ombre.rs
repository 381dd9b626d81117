use aegis_engine::file::{Dessin, File};
use aegis_engine::instances::Emplacements;
use aegis_engine::ombre::tirages_d_ombre;

fn dessin(maillage: u16, ombre: bool) -> Dessin<u32, u8> {
    Dessin { maillage, modele: 0, teinte: 0, params: 0, porte_une_ombre: ombre }
}

fn file_de(dessins: &[(u16, bool)]) -> File<u32, u8> {
    let mut f = File::nouvelle();
    for (m, o) in dessins {
        f.ajouter(dessin(*m, *o));
    }
    f
}

#[test]
fn un_tirage_par_lot_de_porteurs_d_ombre() {
    // Les dessins sans ombre disparaissent avant le découpage : les deux « 1 » séparés par un
    // dessin sans ombre forment un seul lot.
    let f = file_de(&[(1, true), (2, false), (1, true), (0, true), (0, true)]);
    let mut places = Emplacements::nouveau(100);
    let tirages = tirages_d_ombre(&f, &mut places, 3);
    assert_eq!(tirages, vec![(1, 0, 0, 2), (0, 2, 2, 2)]);
    assert_eq!(places.deposees(), 4);
    assert_eq!(places.perdues(), 0);
}

#[test]
fn un_maillage_hors_table_n_est_ni_pose_ni_dessine() {
    let f = file_de(&[(5, true), (5, true), (1, true)]);
    let mut places = Emplacements::nouveau(100);
    let tirages = tirages_d_ombre(&f, &mut places, 2);
    assert_eq!(tirages, vec![(1, 0, 2, 1)]);
    assert_eq!(places.deposees(), 1);
    assert_eq!(places.perdues(), 0);
}

#[test]
fn un_lot_qui_ne_tient_plus_est_refuse_et_compte() {
    let f = file_de(&[(0, true), (0, true), (1, true), (1, true), (1, true), (2, true)]);
    let mut places = Emplacements::nouveau(4);
    let tirages = tirages_d_ombre(&f, &mut places, 3);
    // Le lot du maillage 1 (trois instances) ne tient plus après les deux premières ; celui du
    // maillage 2 tient encore.
    assert_eq!(tirages, vec![(0, 0, 0, 2), (2, 2, 5, 1)]);
    assert_eq!(places.deposees(), 3);
    assert_eq!(places.perdues(), 3);
}

#[test]
fn une_file_sans_porteur_d_ombre_ne_tire_rien() {
    let f = file_de(&[(0, false), (1, false)]);
    let mut places = Emplacements::nouveau(10);
    assert!(tirages_d_ombre(&f, &mut places, 2).is_empty());
    assert_eq!(places.deposees(), 0);
}
