//! La transparence indépendante de l'ordre : le mode que le graphe de rendu choisit.

use vstd::prelude::*;

verus! {

/// Mode de transparence indépendante de l'ordre.
#[derive(Debug, Clone, Copy, PartialEq, Eq, Structural)]
pub enum OitMode {
    /// Pondérée et mélangée : rapide, la base mobile.
    WeightedBlended,
    /// Par moments : précise, la base de la réalité virtuelle.
    MomentBased,
    /// Listes chaînées : exacte, pour la réalité virtuelle sur PC haut de gamme.
    LinkedList,
}

} // verus!
