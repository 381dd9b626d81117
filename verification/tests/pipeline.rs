use aegis_engine::pipeline::{
    EtatDynamique, Facteur, Melange, OperationDeMelange, PipelineFactory, Reglages, FORMAT_INDEFINI,
};
use aegis_engine::occlusion::reglages_de_l_occlusion;
use ash::vk;

fn reglages(color_format: i32, second_format: Option<i32>, melange: Melange) -> Reglages {
    Reglages {
        color_format,
        second_format,
        depth_format: Some(vk::Format::D32_SFLOAT.as_raw()),
        depth_write: true,
        melange,
        use_vertex_input: true,
        echantillons: 4,
    }
}

#[test]
fn une_passe_de_profondeur_pure_n_a_aucun_attachement_de_couleur() {
    assert_eq!(vk::Format::UNDEFINED.as_raw(), FORMAT_INDEFINI);
    let f = PipelineFactory::forme_du_pipeline(&reglages(FORMAT_INDEFINI, None, Melange::Aucun));
    assert!(f.profondeur_seule);
    assert!(f.formats_couleur.is_empty());
    assert!(f.decalage_de_profondeur);
    assert_eq!(
        f.etats_dynamiques,
        vec![EtatDynamique::Viewport, EtatDynamique::Scissor, EtatDynamique::DecalageDeProfondeur]
    );
}

#[test]
fn chaque_attachement_porte_son_propre_melange() {
    let hdr = vk::Format::B10G11R11_UFLOAT_PACK32.as_raw();
    let f = PipelineFactory::forme_du_pipeline(&reglages(hdr, Some(hdr), Melange::Transparence));
    assert!(!f.profondeur_seule);
    assert_eq!(f.formats_couleur, vec![hdr, hdr]);
    assert_eq!(f.melanges.len(), 2);
    assert_eq!(f.melanges[0], f.melanges[1], "l'ambiante suit la couleur");
    assert!(!f.decalage_de_profondeur);
    assert_eq!(f.etats_dynamiques, vec![EtatDynamique::Viewport, EtatDynamique::Scissor]);
    assert_eq!(f.format_profondeur, Some(vk::Format::D32_SFLOAT.as_raw()));
    assert!(f.ecriture_de_profondeur);
    assert!(f.entree_de_sommets);
    assert_eq!(f.echantillons, 4);
}

#[test]
fn la_soustraction_retire_la_source_de_la_cible() {
    let e = PipelineFactory::etat_de_melange(Melange::Soustractif);
    assert!(e.actif);
    assert_eq!(e.operation_couleur, OperationDeMelange::SoustractionInverse);
    assert_eq!(e.operation_alpha, OperationDeMelange::SoustractionInverse);
    assert_eq!(e.source_couleur, Facteur::Un);
}

#[test]
fn chaque_melange_a_ses_facteurs() {
    let aucun = PipelineFactory::etat_de_melange(Melange::Aucun);
    assert!(!aucun.actif);
    let t = PipelineFactory::etat_de_melange(Melange::Transparence);
    assert_eq!((t.source_couleur, t.cible_couleur), (Facteur::AlphaSource, Facteur::UnMoinsAlphaSource));
    assert_eq!((t.source_alpha, t.cible_alpha), (Facteur::Un, Facteur::Zero));
    let a = PipelineFactory::etat_de_melange(Melange::Additif);
    assert_eq!((a.source_couleur, a.cible_couleur), (Facteur::Un, Facteur::Un));
    let m = PipelineFactory::etat_de_melange(Melange::Moitie);
    assert_eq!((m.source_couleur, m.cible_alpha), (Facteur::CouleurConstante, Facteur::AlphaConstant));
    let x = PipelineFactory::etat_de_melange(Melange::Multiplicatif);
    assert_eq!((x.source_couleur, x.cible_couleur), (Facteur::CouleurCible, Facteur::Zero));
    assert_eq!(x.operation_couleur, OperationDeMelange::Addition);
}

#[test]
fn les_mots_spirv_se_lisent_en_petit_boutiste() {
    let octets = [0x03u8, 0x02, 0x23, 0x07, 0x00, 0x00, 0x01, 0x00];
    assert_eq!(PipelineFactory::mots_spirv(&octets), vec![0x0723_0203, 0x0001_0000]);
    assert!(PipelineFactory::mots_spirv(&[]).is_empty());
}

#[test]
fn l_occlusion_multiplie_puis_retire() {
    let (calcul, correction) = reglages_de_l_occlusion(122);
    assert_eq!(calcul.melange, Melange::Multiplicatif);
    assert_eq!(correction.melange, Melange::Soustractif);
    assert_eq!(calcul.color_format, 122);
    assert!(PipelineFactory::etat_de_melange(calcul.melange).actif);
    assert!(PipelineFactory::etat_de_melange(correction.melange).actif);
}

#[test]
fn la_carte_d_ombre_est_une_passe_de_profondeur_pure() {
    let r = aegis_engine::ombre::reglages_de_l_ombre();
    assert_eq!(r.depth_format, Some(vk::Format::D32_SFLOAT.as_raw()));
    let f = PipelineFactory::forme_du_pipeline(&r);
    assert!(f.profondeur_seule);
    assert!(f.decalage_de_profondeur);
    assert!(f.formats_couleur.is_empty());
    assert!(f.ecriture_de_profondeur);
}
