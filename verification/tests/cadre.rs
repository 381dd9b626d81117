use aegis_engine::cadre::{tableau_des_lumieres, MAX_LUMIERES};

#[test]
fn le_tableau_de_lumieres_suit_ce_qui_est_donne() {
    let (tableau, compte) = tableau_des_lumieres(&[7u32, 7, 7], 0);
    assert_eq!(compte, 3);
    assert_eq!(tableau.len(), MAX_LUMIERES);
    // Les emplacements non utilises sont neutres, pas des restes d'une image precedente.
    assert_eq!(tableau[3], 0);

    let (_, aucune) = tableau_des_lumieres::<u32>(&[], 0);
    assert_eq!(aucune, 0);
}

#[test]
fn trop_de_lumieres_sont_bornees_dans_le_tableau() {
    let trop: Vec<(u32, u32)> = (0..(MAX_LUMIERES as u32 + 7)).map(|i| (i, i * 2)).collect();
    let (tableau, compte) = tableau_des_lumieres(&trop, (0, 0));
    assert_eq!(compte, MAX_LUMIERES, "le compte doit dire la verite sur ce qui sera reellement eclaire");
    assert_eq!(tableau.len(), MAX_LUMIERES);
    assert_eq!(tableau[MAX_LUMIERES - 1], (15, 30));
}
