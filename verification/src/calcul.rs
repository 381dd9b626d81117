//! Le découpage d'un problème en groupes de travail pour une passe de calcul.

use vstd::prelude::*;

verus! {

/// Le nombre de groupes nécessaires pour couvrir `total` éléments par groupes de `taille`.
pub open spec fn groupes_pour(total: int, taille: int) -> int {
    if taille <= 0 { 0 } else { (total + taille - 1) / taille }
}

/// Découpe `t = q·w + r` et en déduit la division arrondie vers le haut.
proof fn lemme_division_plafond(t: int, w: int, q: int, r: int)
    requires
        w > 0,
        t >= 0,
        q == t / w,
        r == t % w,
    ensures
        r == 0 ==> (t + w - 1) / w == q,
        r != 0 ==> (t + w - 1) / w == q + 1,
        r != 0 ==> q * w + 1 <= t,
{
    assert(t == q * w + r) by (nonlinear_arith)
        requires w > 0, q == t / w, r == t % w;
    assert(0 <= r < w);
    if r == 0 {
        assert((q * w + w - 1) / w == q) by (nonlinear_arith)
            requires w > 0;
    } else {
        assert((q * w + r + w - 1) / w == q + 1) by (nonlinear_arith)
            requires w > 0, 1 <= r < w;
    }
}

/// Le gestionnaire des pipelines de calcul.
pub struct ComputePipelineManager;

impl ComputePipelineManager {
    /// Calcule le nombre de groupes de travail nécessaires pour couvrir `total_items`
    /// éléments. Une taille de groupe nulle rend zéro groupe au lieu de diviser par zéro.
    pub fn calculate_workgroup_count(total_items: u32, workgroup_size: u32) -> (r: u32)
        ensures
            r == groupes_pour(total_items as int, workgroup_size as int),
    {
        if workgroup_size == 0 {
            return 0;
        }
        let q = total_items / workgroup_size;
        let reste = total_items % workgroup_size;
        proof {
            lemme_division_plafond(total_items as int, workgroup_size as int, q as int, reste as int);
            if reste != 0 {
                assert(q * workgroup_size >= q) by (nonlinear_arith)
                    requires workgroup_size >= 1, q >= 0;
            }
        }
        if reste == 0 { q } else { q + 1 }
    }
}

} // verus!
