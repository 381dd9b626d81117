use aegis_engine::allocation::{planifier_subdivisions, Plan, K_MAX};
use aegis_engine::surface::{micro_sommets, OCTETS_PAR_ENTREE};

fn ideaux_varies(n: u32) -> Vec<u32> {
    (0..n).map(|i| (i * 7 + i / 3) % (K_MAX + 1)).collect()
}

#[test]
fn l_empreinte_tient_dans_le_budget_ou_le_biais_est_au_plancher() {
    let ideaux = ideaux_varies(5000);
    for budget in [4_096u64, 65_536, 1_000_000, 16_000_000, 512_000_000] {
        let plan = planifier_subdivisions(&ideaux, budget);
        assert!(
            plan.octets() <= budget || plan.biais == -(K_MAX as i32),
            "budget {budget} dépassé : {} octets, biais {}",
            plan.octets(),
            plan.biais
        );
    }
}

#[test]
fn un_budget_insuffisant_rend_le_plancher() {
    let ideaux = vec![K_MAX; 1000];
    let plan = planifier_subdivisions(&ideaux, 1);
    assert_eq!(plan.biais, -(K_MAX as i32));
    assert!(plan.octets() > 1, "le plancher dépasse forcément un budget d'un octet");
    assert!(plan.par_triangle.iter().all(|(_, cote)| *cote == 1), "chaque triangle au plancher");
    assert_eq!(plan.entrees, 3 * 1000);
}

#[test]
fn les_plages_se_suivent_sans_trou() {
    let ideaux = ideaux_varies(300);
    let plan = planifier_subdivisions(&ideaux, 8_000_000);
    let mut attendu = 0u32;
    for (i, (base, cote)) in plan.par_triangle.iter().enumerate() {
        assert_eq!(*base, attendu, "trou ou recouvrement au triangle {i}");
        attendu += micro_sommets(cote.trailing_zeros());
    }
    assert_eq!(plan.entrees, attendu);
}

#[test]
fn plus_de_budget_ne_rend_jamais_moins_d_octets() {
    let ideaux = ideaux_varies(800);
    let mut precedent = 0u64;
    for budget in [10_000u64, 100_000, 1_000_000, 10_000_000, 100_000_000] {
        let plan = planifier_subdivisions(&ideaux, budget);
        assert!(plan.octets() >= precedent, "budget {budget} rend moins que le précédent");
        precedent = plan.octets();
    }
}

#[test]
fn un_budget_genereux_garde_la_subdivision_ideale() {
    let ideaux = vec![3u32; 100];
    let plan = planifier_subdivisions(&ideaux, u64::MAX / 2);
    assert_eq!(plan.biais, 0, "le biais ne doit jamais monter au-dessus de zéro");
    assert!(plan.par_triangle.iter().all(|(_, cote)| *cote == 8));
    assert_eq!(plan.ecretes, 0);
}

#[test]
fn le_biais_descend_juste_assez() {
    // Deux triangles de subdivision 2 : 15 entrées chacun, 240 octets. Un budget de 100 octets
    // force le biais à −1 (6 entrées chacun, 96 octets).
    let plan = planifier_subdivisions(&[2, 2], 100);
    assert_eq!(plan.biais, -1);
    assert_eq!(plan.par_triangle, vec![(0, 2), (6, 2)]);
    assert_eq!(plan.entrees, 12);
    assert_eq!(plan.octets(), 12 * OCTETS_PAR_ENTREE);
    assert_eq!(plan.cote(1), 2);
}

#[test]
fn un_plan_se_compare_et_se_clone() {
    let plan = Plan { par_triangle: vec![(0, 1)], entrees: 3, biais: 0, ecretes: 0 };
    let copie = plan.clone();
    assert_eq!(plan, copie);
    assert_eq!(copie.octets(), 24);
}

#[test]
fn le_plafond_ecrete_une_subdivision_trop_fine() {
    // Une aire d'un milliard de pixels voudrait une subdivision 16 : le plafond la ramène à
    // K_MAX, et le plan le compte.
    let plan = planifier_subdivisions(&[16], u64::MAX / 2);
    assert_eq!(plan.biais, 0);
    assert_eq!(plan.par_triangle, vec![(0, 1 << K_MAX)]);
    assert_eq!(plan.entrees, micro_sommets(K_MAX));
    assert_eq!(plan.ecretes, 1);
}

#[test]
fn seuls_les_triangles_au_dessus_du_plafond_sont_comptes() {
    let plan = planifier_subdivisions(&[K_MAX, K_MAX + 1, 3, 20], u64::MAX / 2);
    assert_eq!(plan.biais, 0);
    assert_eq!(plan.ecretes, 2);
    let cotes: Vec<u32> = plan.par_triangle.iter().map(|(_, c)| *c).collect();
    assert_eq!(cotes, vec![256, 256, 8, 256]);
}

#[test]
fn le_plafond_passe_avant_le_biais() {
    // Idéal 10, plafonné à 8, sous un budget d'un octet de moins que le plafond : le biais −1 le
    // ramène à 7. L'écrêtage se compte sur l'idéal, quel que soit le biais.
    let budget = micro_sommets(K_MAX) as u64 * OCTETS_PAR_ENTREE - 1;
    let plan = planifier_subdivisions(&[10], budget);
    assert_eq!(plan.biais, -1);
    assert_eq!(plan.ecretes, 1);
    assert_eq!(plan.cote(0), 1 << 7);
}

#[test]
fn un_budget_insuffisant_rend_le_plancher_et_ne_ment_pas() {
    // Une aire de 100 000 pixels voudrait une subdivision 9 : plafonnée à K_MAX, elle retombe au
    // plancher sous le biais −K_MAX, comme n'importe quel autre triangle.
    let ideaux = vec![9u32; 1000];
    let plan = planifier_subdivisions(&ideaux, 1);
    assert_eq!(plan.biais, -(K_MAX as i32));
    assert!(plan.octets() > 1, "le plancher dépasse forcément un budget d'un octet");
    assert!(plan.par_triangle.iter().all(|(_, cote)| *cote == 1), "chaque triangle au plancher");
    assert_eq!(plan.octets(), 24_000);
    assert_eq!(plan.ecretes, 1000);
}
