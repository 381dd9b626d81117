use aegis_engine::banc::{lire_interrupteur, nombre_ecrit, plafond_lu, Interrupteur};
use aegis_engine::cibles::ECHANTILLONS_VOULUS;

#[test]
fn zero_eteint_et_rien_d_autre() {
    assert_eq!(lire_interrupteur(Some("0")), Interrupteur::Eteint);
    assert!(!lire_interrupteur(Some("0")).allume());
    assert_eq!(lire_interrupteur(Some("1")), Interrupteur::Allume);
    assert_eq!(lire_interrupteur(None), Interrupteur::Absent);
    assert!(lire_interrupteur(None).allume());
}

#[test]
fn une_valeur_illisible_allume_et_se_signale() {
    for valeur in ["oui", "00", "", "2", "01", "0 0", " "] {
        let i = lire_interrupteur(Some(valeur));
        assert_eq!(i, Interrupteur::Illisible, "{valeur:?}");
        assert!(i.allume());
    }
}

#[test]
fn les_blancs_autour_de_la_valeur_ne_comptent_pas() {
    assert_eq!(lire_interrupteur(Some(" 0")), Interrupteur::Eteint);
    assert_eq!(lire_interrupteur(Some("0\n")), Interrupteur::Eteint);
    assert_eq!(lire_interrupteur(Some("\t1\r\n")), Interrupteur::Allume);
    assert_eq!(lire_interrupteur(Some("\u{3000}0\u{a0}")), Interrupteur::Eteint);
}

#[test]
fn le_plafond_absent_ou_illisible_garde_la_valeur_voulue() {
    assert_eq!(plafond_lu(None), ECHANTILLONS_VOULUS);
    for valeur in ["", "beaucoup", "-1", "4294967296", "2x", "1 2"] {
        assert_eq!(plafond_lu(Some(valeur)), ECHANTILLONS_VOULUS, "{valeur:?}");
    }
}

#[test]
fn le_plafond_lu_est_le_nombre_ecrit() {
    assert_eq!(plafond_lu(Some("1")), 1);
    assert_eq!(plafond_lu(Some(" 2\n")), 2);
    assert_eq!(plafond_lu(Some("+8")), 8);
    assert_eq!(plafond_lu(Some("0")), 0);
    assert_eq!(plafond_lu(Some("4294967295")), u32::MAX);
}

#[test]
fn le_nombre_ecrit_ignore_les_blancs_et_refuse_le_reste() {
    assert_eq!(nombre_ecrit(" 16 "), Some(16));
    assert_eq!(nombre_ecrit("seize"), None);
    assert_eq!(nombre_ecrit(""), None);
}
