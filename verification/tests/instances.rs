use aegis_engine::instances::{attributs, liaison, Emplacements, OCTETS_PAR_INSTANCE};
use ash::vk;

#[test]
fn les_emplacements_d_instance_ne_recouvrent_pas_ceux_des_sommets() {
    for a in attributs() {
        assert!(
            a.location >= 5,
            "l'emplacement {} entre en conflit avec un attribut de sommet",
            a.location
        );
        assert_eq!(a.binding, 1, "les instances vivent au point de liaison 1");
    }
}

#[test]
fn les_instances_se_lisent_par_instance_et_non_par_sommet() {
    assert!(liaison().par_instance);
    assert_eq!(vk::VertexInputRate::INSTANCE.as_raw(), 1);
}

#[test]
fn l_agencement_des_attributs_suit_l_instance() {
    let attrs = attributs();
    assert_eq!(attrs.len(), 6, "quatre pour la matrice, un pour la teinte, un pour les params");
    assert_eq!(attrs[0].offset, 0);
    assert_eq!(attrs[3].offset, 48, "la quatrieme colonne de la matrice");
    assert_eq!(attrs[4].offset, 64, "la teinte suit immediatement la matrice");
    assert_eq!(attrs[5].offset, 80);
    assert_eq!(liaison().stride, 96);
    assert_eq!(OCTETS_PAR_INSTANCE, 96);
    assert!(attrs.iter().all(|a| a.format == vk::Format::R32G32B32A32_SFLOAT.as_raw()));
}

#[test]
fn un_lot_qui_deborde_est_refuse_et_compte() {
    let mut e = Emplacements::nouveau(10);
    assert_eq!(e.poser(4), Some(0));
    assert_eq!(e.poser(6), Some(4));
    assert_eq!(e.deposees(), 10);
    assert_eq!(e.poser(1), None, "le tampon est plein");
    assert_eq!(e.poser(3), None);
    assert_eq!(e.deposees(), 10, "un lot refusé n'avance pas le curseur");
    assert_eq!(e.recommencer(), 4, "quatre instances perdues à l'image précédente");
    assert_eq!(e.deposees(), 0);
    assert_eq!(e.recommencer(), 0);
    assert_eq!(e.poser(0), Some(0));
    assert_eq!(e.capacite(), 10);
}
