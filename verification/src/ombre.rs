//! La carte d'ombre : la scène redessinée depuis la lumière, en profondeur seule.
//!
//! La passe rejoue la même scène que l'écran, instanciée de la même façon : un appel par lot de
//! porteurs d'ombre consécutifs du même maillage. Un lot dont le maillage est hors de la table
//! n'est pas dessiné ; un lot qui ne tient plus dans le tampon d'instances est refusé, et compté.

use vstd::prelude::*;
use crate::file::{lemme_les_lots_decoupent_la_suite, lemme_lots_croissants, lots, lots_de, ombrants, Dessin, File, Lot};
use crate::instances::Emplacements;
use crate::pipeline::{Melange, Reglages, FORMAT_INDEFINI};

verus! {

/// Le format Vulkan de la carte d'ombre : une profondeur flottante sur 32 bits.
pub const FORMAT_DE_L_OMBRE: i32 = 126;

/// Les réglages du pipeline de la carte d'ombre : aucune couleur — ce qui en fait une passe de
/// profondeur pure, avec un décalage de profondeur réglé au dessin —, la profondeur écrite, les
/// instances lues, un seul échantillon.
pub fn reglages_de_l_ombre() -> (r: Reglages)
    ensures
        r == (Reglages {
            color_format: FORMAT_INDEFINI,
            second_format: None,
            depth_format: Some(FORMAT_DE_L_OMBRE),
            depth_write: true,
            melange: Melange::Aucun,
            use_vertex_input: true,
            echantillons: 1,
        }),
{
    Reglages {
        color_format: FORMAT_INDEFINI,
        second_format: None,
        depth_format: Some(FORMAT_DE_L_OMBRE),
        depth_write: true,
        melange: Melange::Aucun,
        use_vertex_input: true,
        echantillons: 1,
    }
}

/// Un tirage de la passe d'ombre : `(maillage, première instance, début, nombre)`, où `début` et
/// `nombre` désignent les porteurs d'ombre du lot.
pub type Tirage = (u16, u32, usize, usize);

/// Un pas de la passe d'ombre : ce que le lot `lot` fait de l'état `(tirages, déposées,
/// refusées)`, pour une table de `n` maillages et un tampon de capacité `capacite`.
///
/// Un lot hors de la table est sauté sans rien toucher ; un lot qui tient reçoit les instances
/// suivantes et devient un tirage ; un lot qui ne tient pas est refusé tout entier.
pub open spec fn pas_d_ombre(etat: (Seq<Tirage>, nat, nat), lot: Lot, n: int, capacite: nat)
    -> (Seq<Tirage>, nat, nat)
{
    if lot.maillage >= n {
        etat
    } else if etat.1 + lot.nombre <= capacite {
        (etat.0.push((lot.maillage, etat.1 as u32, lot.debut, lot.nombre)), (etat.1 + lot.nombre) as nat, etat.2)
    } else {
        (etat.0, etat.1, (etat.2 + lot.nombre) as nat)
    }
}

/// Ce que la passe d'ombre fait de `lots`, dans l'ordre, pour une table de `n` maillages et un
/// tampon d'instances de capacité `capacite` dont `deposees` sont déjà prises : les tirages émis,
/// les instances déposées à la fin, et les instances refusées en chemin.
pub open spec fn passe_d_ombre(lots: Seq<Lot>, n: int, deposees: nat, capacite: nat)
    -> (Seq<Tirage>, nat, nat)
    decreases lots.len(),
{
    if lots.len() == 0 {
        (Seq::empty(), deposees, 0)
    } else {
        pas_d_ombre(passe_d_ombre(lots.drop_last(), n, deposees, capacite), lots.last(), n, capacite)
    }
}

/// Les tirages de la passe d'ombre pour la file `file` : un par lot de porteurs d'ombre
/// consécutifs du même maillage, dans l'ordre de la file, sauf les lots dont le maillage est hors
/// d'une table de `nombre_de_maillages` et ceux que le tampon d'instances refuse. Les instances de
/// chaque lot retenu sont réservées dans `places`.
pub fn tirages_d_ombre<M: Copy, C: Copy>(
    file: &File<M, C>,
    places: &mut Emplacements,
    nombre_de_maillages: usize,
) -> (r: Vec<Tirage>)
    requires
        old(places).wf(),
        old(places).refusees() + file@.len() <= usize::MAX,
    ensures
        ({
            let (tirages, deposees, refusees) = passe_d_ombre(
                lots_de(file@.filter(ombrants())),
                nombre_de_maillages as int,
                old(places).deja_deposees(),
                old(places).capacite_totale(),
            );
            &&& r@ == tirages
            &&& final(places).deja_deposees() == deposees
            &&& final(places).refusees() == old(places).refusees() + refusees
        }),
        final(places).wf(),
        final(places).capacite_totale() == old(places).capacite_totale(),
{
    let porteurs = file.porteurs_d_ombre();
    let lots = lots(porteurs.as_slice());
    let ghost s: Seq<Dessin<M, C>> = porteurs@;
    let ghost deposees0 = places.deja_deposees();
    let ghost refusees0 = places.refusees();
    let ghost capacite = places.capacite_totale();
    let ghost n = nombre_de_maillages as int;
    proof {
        file@.lemma_filter_len(ombrants());
        lemme_les_lots_decoupent_la_suite(s);
        assert(lots@.subrange(0, 0) =~= Seq::<Lot>::empty());
        assert forall|i: int| 0 <= i < lots@.len() implies (#[trigger] lots@[i]).debut + lots@[i].nombre
            <= s.len() by {
            lemme_lots_croissants(s, lots@, i);
        }
        assert forall|i: int| 0 < i < lots@.len() implies (#[trigger] lots@[i]).debut
            == lots@[i - 1].debut + lots@[i - 1].nombre by {
            assert(lots@[i - 1].debut + lots@[i - 1].nombre == lots@[(i - 1) + 1].debut);
        }
    }
    let mut r: Vec<Tirage> = Vec::new();
    let mut j: usize = 0;
    while j < lots.len()
        invariant
            lots@ == lots_de(s),
            n == nombre_de_maillages as int,
            forall|i: int| 0 <= i < lots@.len() ==> (#[trigger] lots@[i]).debut + lots@[i].nombre <= s.len(),
            forall|i: int| 0 < i < lots@.len() ==> (#[trigger] lots@[i]).debut
                == lots@[i - 1].debut + lots@[i - 1].nombre,
            lots@.len() > 0 ==> lots@[0].debut == 0,
            s.len() <= file@.len(),
            refusees0 + file@.len() <= usize::MAX,
            j <= lots@.len(),
            places.wf(),
            places.capacite_totale() == capacite,
            places.refusees() >= refusees0,
            places.refusees() - refusees0 <= if j == 0 {
                0
            } else {
                lots@[j - 1].debut + lots@[j - 1].nombre
            },
            r@ == passe_d_ombre(lots@.subrange(0, j as int), n, deposees0, capacite).0,
            places.deja_deposees() == passe_d_ombre(lots@.subrange(0, j as int), n, deposees0, capacite).1,
            places.refusees() == refusees0 + passe_d_ombre(lots@.subrange(0, j as int), n, deposees0, capacite).2,
        decreases lots@.len() - j,
    {
        let lot = lots[j];
        let ghost pre = lots@.subrange(0, j as int + 1);
        proof {
            assert(pre.drop_last() =~= lots@.subrange(0, j as int));
            assert(pre.last() == lot);
            assert(lot.debut + lot.nombre <= s.len());
        }
        let ghost avant = passe_d_ombre(lots@.subrange(0, j as int), n, deposees0, capacite);
        assert(passe_d_ombre(pre, n, deposees0, capacite) == pas_d_ombre(avant, lot, n, capacite));
        if (lot.maillage as usize) < nombre_de_maillages {
            match places.poser(lot.nombre) {
                Some(premiere) => {
                    r.push((lot.maillage, premiere, lot.debut, lot.nombre));
                },
                None => {},
            }
        }
        j = j + 1;
        proof {
            assert(lots@.subrange(0, j as int) == pre);
        }
    }
    proof {
        assert(lots@.subrange(0, j as int) =~= lots@);
    }
    r
}

} // verus!
