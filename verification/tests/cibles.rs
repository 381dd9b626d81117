use aegis_engine::cibles::{
    echantillons_retenus, format_hdr, memoires_a_essayer, plan_des_cibles, usage_a_declarer,
    FormatHdr, CAPACITES_REQUISES, ECHANTILLONS_VOULUS, MEMOIRE_LOCALE, MEMOIRE_PARESSEUSE,
    USAGE_ECHANTILLONNEE, USAGE_PASSAGERE,
};
use ash::vk;

fn bits(f: vk::SampleCountFlags) -> u32 {
    f.as_raw()
}

#[test]
fn on_ne_demande_jamais_plus_que_ce_qui_est_supporte() {
    // Une carte qui ne sait faire que 1x et 2x, alors qu'on voudrait 4x.
    let supportes = vk::SampleCountFlags::TYPE_1 | vk::SampleCountFlags::TYPE_2;
    assert_eq!(
        echantillons_retenus(bits(supportes), 4),
        bits(vk::SampleCountFlags::TYPE_2),
        "il faut retomber sur le meilleur niveau REELLEMENT disponible"
    );
}

#[test]
fn le_plafond_demande_n_est_jamais_depasse() {
    let supportes = vk::SampleCountFlags::TYPE_1
        | vk::SampleCountFlags::TYPE_2
        | vk::SampleCountFlags::TYPE_4
        | vk::SampleCountFlags::TYPE_8;
    assert_eq!(echantillons_retenus(bits(supportes), 4), bits(vk::SampleCountFlags::TYPE_4));
    assert_eq!(echantillons_retenus(bits(supportes), 8), bits(vk::SampleCountFlags::TYPE_8));
    assert_eq!(echantillons_retenus(bits(supportes), 2), bits(vk::SampleCountFlags::TYPE_2));
}

#[test]
fn une_carte_qui_n_annonce_rien_retombe_sur_un_seul_echantillon() {
    assert_eq!(
        echantillons_retenus(bits(vk::SampleCountFlags::empty()), 4),
        bits(vk::SampleCountFlags::TYPE_1)
    );
    assert_eq!(
        echantillons_retenus(bits(vk::SampleCountFlags::TYPE_1), 4),
        bits(vk::SampleCountFlags::TYPE_1)
    );
}

#[test]
fn demander_moins_d_un_echantillon_reste_un_echantillon() {
    let tout = vk::SampleCountFlags::TYPE_1
        | vk::SampleCountFlags::TYPE_2
        | vk::SampleCountFlags::TYPE_4;
    assert_eq!(echantillons_retenus(bits(tout), 0), bits(vk::SampleCountFlags::TYPE_1));
    assert_eq!(echantillons_retenus(bits(tout), 1), bits(vk::SampleCountFlags::TYPE_1));
}

#[test]
fn un_trou_dans_les_niveaux_supportes_est_saute() {
    // 64x et 2x, mais rien entre les deux : avec un plafond de 16, c'est 2x.
    assert_eq!(echantillons_retenus(64 | 2 | 1, 16), 2);
    assert_eq!(echantillons_retenus(64 | 2 | 1, 64), 64);
    assert_eq!(echantillons_retenus(0x7f, ECHANTILLONS_VOULUS), 4);
}

#[test]
fn le_format_compact_est_retenu_quand_il_est_pleinement_utilisable() {
    let requises = vk::FormatFeatureFlags::COLOR_ATTACHMENT
        | vk::FormatFeatureFlags::COLOR_ATTACHMENT_BLEND
        | vk::FormatFeatureFlags::SAMPLED_IMAGE
        | vk::FormatFeatureFlags::SAMPLED_IMAGE_FILTER_LINEAR;
    assert_eq!(requises.as_raw(), CAPACITES_REQUISES);
    assert_eq!(format_hdr(CAPACITES_REQUISES, CAPACITES_REQUISES), FormatHdr::Compact);
}

#[test]
fn une_seule_capacite_manquante_fait_basculer_sur_le_repli() {
    for manquante in [
        vk::FormatFeatureFlags::COLOR_ATTACHMENT,
        vk::FormatFeatureFlags::COLOR_ATTACHMENT_BLEND,
        vk::FormatFeatureFlags::SAMPLED_IMAGE,
        vk::FormatFeatureFlags::SAMPLED_IMAGE_FILTER_LINEAR,
    ] {
        let ampute = CAPACITES_REQUISES & !manquante.as_raw();
        assert_eq!(
            format_hdr(ampute, CAPACITES_REQUISES),
            FormatHdr::Repli,
            "sans {manquante:?}, le format compact n'est pas utilisable"
        );
    }
}

#[test]
fn une_carte_qui_n_annonce_rien_prend_le_repli() {
    assert_eq!(format_hdr(0, 0), FormatHdr::Repli);
}

#[test]
fn sans_anti_crenelage_la_scene_se_dessine_dans_l_image_resolue() {
    let p = plan_des_cibles(1);
    assert!(p.couleur.is_none());
    assert!(p.ambiante.is_none());
    assert!(p.profondeur_lisible.is_none());
    assert_eq!(p.profondeur.echantillons, 1);
    assert!(!p.profondeur.passagere);
    assert_ne!(p.profondeur.usage & USAGE_ECHANTILLONNEE, 0, "la profondeur unique est lisible");
}

#[test]
fn avec_anti_crenelage_les_images_multiples_sont_passageres() {
    let p = plan_des_cibles(4);
    let couleur = p.couleur.expect("une couleur multi-échantillonnée");
    assert_eq!(couleur.echantillons, 4);
    assert!(couleur.passagere);
    assert_eq!(usage_a_declarer(&couleur) & USAGE_PASSAGERE, USAGE_PASSAGERE);
    assert_eq!(p.ambiante, p.couleur, "l'ambiante suit la couleur");
    assert!(p.profondeur.passagere);
    assert_eq!(p.profondeur.usage & USAGE_ECHANTILLONNEE, 0, "une image passagère n'est pas une texture");
    let lisible = p.profondeur_lisible.expect("une profondeur lisible");
    assert_eq!(lisible.echantillons, 1);
    assert_eq!(usage_a_declarer(&p.resolue) & USAGE_PASSAGERE, 0);
}

#[test]
fn seule_une_image_passagere_tente_la_memoire_paresseuse() {
    assert_eq!(memoires_a_essayer(true), vec![MEMOIRE_PARESSEUSE, MEMOIRE_LOCALE]);
    assert_eq!(memoires_a_essayer(false), vec![MEMOIRE_LOCALE]);
    assert_eq!(vk::MemoryPropertyFlags::LAZILY_ALLOCATED.as_raw(), MEMOIRE_PARESSEUSE);
    assert_eq!(vk::ImageUsageFlags::TRANSIENT_ATTACHMENT.as_raw(), USAGE_PASSAGERE);
}
