//! Le cadre : ce qui est vrai pour toute une image — la caméra et les lumières.
//!
//! Le shader ne parcourt que les lumières annoncées, jusqu'à une borne fixe. Les lumières au-delà
//! sont ignorées, silencieusement pour le GPU mais pas pour l'appelant : le compte rendu dit
//! combien ont réellement été retenues.

use vstd::prelude::*;

verus! {

/// Combien de lumières une image peut porter : une borne de mémoire, pas un objectif.
pub const MAX_LUMIERES: usize = 16;

/// Combien de lumières sont retenues sur `n` données.
pub open spec fn retenues(n: nat) -> nat {
    if n <= MAX_LUMIERES { n } else { MAX_LUMIERES as nat }
}

/// Le tableau de lumières d'une image : les premières lumières données, jusqu'à la borne, puis
/// des lumières neutres — jamais les restes d'une image précédente. Rend aussi le compte de
/// lumières retenues, que le shader parcourra.
pub fn tableau_des_lumieres<L: Copy>(lumieres: &[L], neutre: L) -> (r: (Vec<L>, usize))
    ensures
        r.1 == retenues(lumieres@.len()),
        r.0@.len() == MAX_LUMIERES,
        forall|i: int| 0 <= i < r.1 ==> #[trigger] r.0@[i] == lumieres@[i],
        forall|i: int| r.1 <= i < MAX_LUMIERES ==> #[trigger] r.0@[i] == neutre,
{
    let compte = if lumieres.len() <= MAX_LUMIERES { lumieres.len() } else { MAX_LUMIERES };
    let mut tableau: Vec<L> = Vec::new();
    let mut i: usize = 0;
    while i < MAX_LUMIERES
        invariant
            compte == retenues(lumieres@.len()),
            i <= MAX_LUMIERES,
            tableau@.len() == i,
            forall|j: int| 0 <= j < i && j < compte ==> #[trigger] tableau@[j] == lumieres@[j],
            forall|j: int| compte <= j < i ==> #[trigger] tableau@[j] == neutre,
        decreases MAX_LUMIERES - i,
    {
        if i < compte {
            tableau.push(lumieres[i]);
        } else {
            tableau.push(neutre);
        }
        i = i + 1;
    }
    (tableau, compte)
}

} // verus!
