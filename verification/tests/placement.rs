use aegis_engine::allocation::{planifier_subdivisions, K_MAX};
use aegis_engine::placement::{a_refaire, Deplacement, Placement};
use aegis_engine::surface::{micro_sommets, OCTETS_PAR_ENTREE};

fn sommet(p: &Placement) -> u32 {
    (p.empreinte() / OCTETS_PAR_ENTREE) as u32
}

#[test]
fn une_adresse_ne_bouge_pas_tant_que_la_subdivision_ne_bouge_pas() {
    let mut p = Placement::nouveau(5);
    p.mettre_a_jour(&[3, 1, 4, 1, 5], u64::MAX);
    let avant: Vec<_> = (0..5).map(|t| p.bloc(t).unwrap().0).collect();

    // Le triangle 0 grossit beaucoup — en cumulatif, tout le reste se décalerait.
    let d = p.mettre_a_jour(&[7, 1, 4, 1, 5], u64::MAX);

    assert_eq!(d.reloges, vec![0], "seul le triangle qui change doit déménager");
    for t in 1..5u32 {
        assert_eq!(
            p.bloc(t).unwrap().0,
            avant[t as usize],
            "le triangle {t} n'a pas changé de subdivision : son adresse doit être intacte"
        );
    }
}

#[test]
fn deux_triangles_n_occupent_jamais_la_meme_memoire() {
    let mut p = Placement::nouveau(200);
    // Une séquence de subdivisions qui bouge beaucoup, pour brasser les classes.
    for tour in 0..40u32 {
        let k: Vec<u32> = (0..200u32).map(|t| (t * 7 + tour * 13) % (K_MAX + 1)).collect();
        p.mettre_a_jour(&k, u64::MAX);

        let mut occupe = vec![false; sommet(&p) as usize];
        for t in 0..200u32 {
            let (base, kk) = p.bloc(t).unwrap();
            for e in base..base + micro_sommets(kk) {
                assert!(
                    !occupe[e as usize],
                    "tour {tour} : l'entrée {e} est réclamée deux fois (triangle {t})"
                );
                occupe[e as usize] = true;
            }
        }
    }
}

#[test]
fn un_bloc_rendu_est_repris_au_lieu_d_agrandir_l_arene() {
    let mut p = Placement::nouveau(1);
    p.mettre_a_jour(&[4], u64::MAX);
    let sommet_apres_un_tour = sommet(&p);

    // On fait osciller le même triangle entre deux classes, cinquante fois.
    for i in 0..50 {
        p.mettre_a_jour(&[if i % 2 == 0 { 2 } else { 4 }], u64::MAX);
    }

    assert_eq!(
        sommet(&p),
        sommet_apres_un_tour + micro_sommets(2),
        "l'arène ne doit grandir que d'un bloc de classe 2 — les autres sont repris"
    );
}

#[test]
fn la_fragmentation_reste_bornee_sur_une_longue_sequence() {
    let mut p = Placement::nouveau(300);
    let mut pire = 1.0f64;
    for tour in 0..300u32 {
        // Des subdivisions qui dérivent lentement, comme sous une caméra qui bouge.
        let k: Vec<u32> = (0..300u32)
            .map(|t| {
                let brut = ((t as f32 * 0.37 + tour as f32 * 0.11).sin() * 4.0 + 4.0) as u32;
                brut.min(K_MAX)
            })
            .collect();
        p.mettre_a_jour(&k, u64::MAX);
        let fragmentation = if p.utile() == 0 { 1.0 } else { p.empreinte() as f64 / p.utile() as f64 };
        pire = pire.max(fragmentation);
    }
    assert!(
        pire < 2.0,
        "la fragmentation atteint {pire:.2}× l'empreinte utile — au-delà de 2×, la stabilité \
         coûte plus cher que la copie qu'elle évite"
    );
}

#[test]
fn le_compactage_ramene_l_empreinte_sous_le_budget() {
    let subdivisions = |tour: u32| -> Vec<u32> {
        (0..300u32).map(|t| (5 + (tour / 10) % 4 + (t % 2)).min(K_MAX)).collect()
    };

    let mut p = Placement::nouveau(300);
    // Ce que la densité la plus coûteuse de la séquence demande, placée sans aucun trou.
    let pire = (0..200u32)
        .max_by_key(|t| subdivisions(*t).iter().map(|k| micro_sommets(*k) as u64).sum::<u64>())
        .unwrap();
    p.mettre_a_jour(&subdivisions(pire), u64::MAX);
    let budget = (p.utile() as f64 * 1.15) as u64;

    let mut deborde = false;
    for tour in 0..200u32 {
        let k = subdivisions(tour);
        let d = p.mettre_a_jour(&k, budget);
        deborde |= d.compacte;
        assert!(
            p.empreinte() <= budget.max(p.utile()),
            "tour {tour} : l'arène tient {} o pour un budget de {budget} o et {} o utiles",
            p.empreinte(),
            p.utile()
        );
    }
    assert!(deborde, "le cas de test doit faire déborder l'arène, sinon il ne teste rien");
}

#[test]
fn aucun_acharnement_quand_c_est_la_densite_qui_deborde() {
    let mut p = Placement::nouveau(300);
    let k: Vec<u32> = (0..300u32).map(|t| t % 7).collect();
    p.mettre_a_jour(&k, u64::MAX);
    // Un budget que la densité ne peut PAS tenir, quoi qu'on fasse du placement.
    let impossible = p.utile() / 4;

    for tour in 0..100u32 {
        let k: Vec<u32> = (0..300u32).map(|t| (t * 11 + tour * 7) % 7).collect();
        p.mettre_a_jour(&k, impossible);
    }
    assert!(
        p.compactages <= 1,
        "le placement s'acharne : {} compactages pour un budget que la densité ne peut pas \
         tenir. Faire tenir la densité est le rôle du biais, pas du placement.",
        p.compactages
    );
}

#[test]
fn aucun_compactage_tant_que_la_place_ne_manque_pas() {
    let mut p = Placement::nouveau(50);
    for tour in 0..100u32 {
        let k: Vec<u32> = (0..50u32).map(|t| (t + tour) % 5).collect();
        p.mettre_a_jour(&k, u64::MAX / 2);
    }
    assert_eq!(p.compactages, 0, "avec un budget immense, aucun compactage ne se justifie");
}

#[test]
fn la_liste_de_travail_porte_les_reloges_et_les_bords_changes() {
    let deplacement = Deplacement {
        reloges: vec![2, 5],
        compacte: false,
        entrees_relogees: 0,
        entrees_totales: 0,
    };
    let avant = vec![[4, 4, 4], [4, 4, 4], [8, 8, 8], [4, 4, 4], [2, 4, 4], [8, 8, 8]];
    let mut apres = avant.clone();
    // Le triangle 4 n'a pas bougé, mais son voisin a changé : une de ses arêtes est décimée.
    apres[4] = [4, 4, 4];

    let liste = a_refaire(&deplacement, &avant, &apres);
    assert_eq!(liste, vec![2, 4, 5], "il faut les relogés ET le bord qui change");

    // Et sans changement d'arête, on ne refait QUE les relogés : la liste ne doit pas gonfler.
    assert_eq!(
        a_refaire(&deplacement, &avant, &avant),
        vec![2, 5],
        "un raccord inchangé ne doit ajouter personne"
    );
}

#[test]
fn un_triangle_reloge_dont_le_raccord_change_aussi_n_apparait_qu_une_fois() {
    let deplacement = Deplacement {
        reloges: vec![1],
        compacte: false,
        entrees_relogees: 0,
        entrees_totales: 0,
    };
    let avant = vec![[4, 4, 4], [8, 8, 8]];
    let apres = vec![[4, 4, 4], [2, 2, 2]];
    assert_eq!(a_refaire(&deplacement, &avant, &apres), vec![1]);
}

#[test]
fn un_triangle_nouveau_est_toujours_a_refaire() {
    let deplacement = Deplacement { reloges: vec![], compacte: false, entrees_relogees: 0, entrees_totales: 0 };
    // Le triangle 2 n'existait pas à l'image précédente : son raccord n'a jamais été écrit.
    let avant = vec![[4, 4, 4], [4, 4, 4]];
    let apres = vec![[4, 4, 4], [4, 4, 4], [4, 4, 4]];
    assert_eq!(a_refaire(&deplacement, &avant, &apres), vec![2]);
}

#[test]
fn le_plan_applique_porte_les_bases_stables() {
    let modele = planifier_subdivisions(&[8, 2, 4], u64::MAX / 2);
    let k: Vec<u32> = modele.par_triangle.iter().map(|(_, c)| c.trailing_zeros()).collect();
    assert_eq!(k, vec![8, 2, 4]);
    let mut p = Placement::nouveau(3);
    p.mettre_a_jour(&k, u64::MAX);
    let plan = p.appliquer(&modele);

    for (t, voulu) in k.iter().enumerate() {
        let (base, cote) = plan.par_triangle[t];
        assert_eq!(base, p.bloc(t as u32).unwrap().0, "la base doit venir du placement");
        assert_eq!(cote.trailing_zeros(), *voulu, "la subdivision ne doit pas être altérée");
    }
    assert_eq!(plan.entrees, sommet(&p), "le tampon se dimensionne sur l'arène, pas sur la somme");
    assert_eq!(plan.biais, modele.biais);
}

#[test]
fn la_mise_a_jour_compte_les_entrees_relogees() {
    let mut p = Placement::nouveau(3);
    let d = p.mettre_a_jour(&[0, 1, 2], u64::MAX);
    assert_eq!(d.reloges, vec![0, 1, 2], "au premier tour, tout le monde emménage");
    assert_eq!(d.entrees_relogees, (3 + 6 + 15) as u64);
    assert_eq!(d.entrees_totales, (3 + 6 + 15) as u64);
    assert!(!d.compacte);
    assert_eq!(p.utile(), 24 * OCTETS_PAR_ENTREE);
    assert_eq!(p.empreinte(), 24 * OCTETS_PAR_ENTREE);
    // Rien ne change : personne ne bouge.
    let d = p.mettre_a_jour(&[0, 1, 2], u64::MAX);
    assert!(d.reloges.is_empty());
    assert_eq!(d.entrees_relogees, 0);
}

#[test]
fn un_compactage_reloge_tout_le_monde_sans_trou() {
    let mut p = Placement::nouveau(2);
    p.mettre_a_jour(&[4, 4], u64::MAX);
    // Le triangle 0 rétrécit : son bloc de classe 4 devient un trou de 153 entrées.
    let d = p.mettre_a_jour(&[0, 4], 8 * 200);
    assert!(d.compacte, "l'arène dépasse le budget à cause du trou");
    assert_eq!(d.reloges, vec![0, 1]);
    assert_eq!(p.bloc(0), Some((0, 0)));
    assert_eq!(p.bloc(1), Some((3, 4)));
    assert_eq!(p.empreinte(), p.utile());
    assert_eq!(p.compactages, 1);
}

#[test]
fn le_compte_des_compactages_se_lit() {
    let mut p = Placement::nouveau(2);
    assert_eq!(p.compactages(), 0);
    p.mettre_a_jour(&[4, 4], u64::MAX);
    p.mettre_a_jour(&[0, 4], 8 * 200);
    assert_eq!(p.compactages(), 1);
    assert_eq!(p.compactages(), p.compactages);
}

#[test]
fn seuls_ceux_qui_changent_de_classe_sont_reloges() {
    let mut p = Placement::nouveau(4);
    p.mettre_a_jour(&[1, 2, 3, 2], u64::MAX);
    let avant: Vec<_> = (0..4).map(|t| p.bloc(t)).collect();
    let d = p.mettre_a_jour(&[1, 3, 3, 0], u64::MAX);
    assert!(!d.compacte);
    assert_eq!(d.reloges, vec![1, 3]);
    assert_eq!(d.entrees_relogees, (micro_sommets(3) + micro_sommets(0)) as u64);
    assert_eq!(p.bloc(0), avant[0]);
    assert_eq!(p.bloc(2), avant[2]);
    for t in 0..4u32 {
        let (_, k) = p.bloc(t).unwrap();
        assert_eq!(k, [1, 3, 3, 0][t as usize]);
    }
}

#[test]
fn une_mise_a_jour_se_verifie_avant_d_etre_faite() {
    let p = Placement::nouveau(3);
    assert!(p.mise_a_jour_possible(&[0, 4, K_MAX]));
    assert!(!p.mise_a_jour_possible(&[0, 4]), "un triangle de moins");
    assert!(!p.mise_a_jour_possible(&[0, 4, K_MAX + 1]), "une classe qui n'existe pas");
}
