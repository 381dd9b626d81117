use aegis_engine::surface::{depuis_rang, micro_sommets, rang, TailleDeSurface, OCTETS_PAR_ENTREE};

#[test]
fn le_compte_des_micro_sommets_suit_la_subdivision() {
    assert_eq!(micro_sommets(0), 3, "un triangle non subdivisé a ses trois coins");
    assert_eq!(micro_sommets(1), 6);
    assert_eq!(micro_sommets(2), 15);
    assert_eq!(micro_sommets(3), 45);
}

#[test]
fn l_adresse_est_une_bijection() {
    for k in 0..=6 {
        let n = 1u32 << k;
        let total = micro_sommets(k);
        let mut vus = vec![false; total as usize];
        for j in 0..=n {
            for i in 0..=(n - j) {
                let r = rang(i, j, n);
                assert!(r < total, "k={k} : le rang ({i},{j}) = {r} sort de la plage {total}");
                assert!(!vus[r as usize], "k={k} : le rang {r} est atteint deux fois");
                vus[r as usize] = true;
                assert_eq!(depuis_rang(r, n), (i, j), "k={k} : l'inverse du rang {r} est faux");
            }
        }
        assert!(vus.iter().all(|v| *v), "k={k} : un rang n'est atteint par aucun (i,j)");
    }
}

#[test]
fn une_entree_tient_dans_le_budget_du_quest_2() {
    const PIXELS: u64 = 2 * 1832 * 1920;
    const TRAFIC_PAR_IMAGE: u64 = 44_000_000_000 / 72;
    let part = (OCTETS_PAR_ENTREE * PIXELS) as f64 / TRAFIC_PAR_IMAGE as f64;
    assert!(
        part < 0.15,
        "une entrée de {OCTETS_PAR_ENTREE} o lue une fois par pixel prendrait {:.1} % du \
         trafic du Quest 2 — le plafond posé est 15 %",
        part * 100.0
    );
}

#[test]
fn le_rang_suit_la_formule_fermee() {
    // rang(i, j) = j(2n + 3 − j)/2 + i : la rangée 1 d'un côté de 4 commence après 5 sommets.
    assert_eq!(rang(0, 0, 4), 0);
    assert_eq!(rang(0, 1, 4), 5);
    assert_eq!(rang(2, 1, 4), 7);
    assert_eq!(rang(0, 4, 4), 14);
    assert_eq!(depuis_rang(14, 4), (0, 4));
    assert_eq!(depuis_rang(4, 4), (4, 0));
    assert_eq!(micro_sommets(8), 33153, "le plafond de subdivision");
}

#[test]
fn la_memoire_de_surface_se_dimensionne_sur_la_subdivision() {
    let t = TailleDeSurface::pour(1000, 3);
    assert_eq!(t.par_triangle, 45);
    assert_eq!(t.cote, 8);
    assert_eq!(t.entrees, 45_000);
    assert_eq!(t.octets(), 45_000 * OCTETS_PAR_ENTREE);
}

#[test]
fn un_rang_hors_du_triangle_tombe_dans_la_rangee_suivante() {
    // Un côté de 4 porte 15 sommets : les rangs 15 et au-delà sont hors du triangle.
    assert_eq!(depuis_rang(15, 4), (0, 5));
    assert_eq!(depuis_rang(20, 4), (5, 5));
    assert_eq!(depuis_rang(3, 0), (2, 1));
}
