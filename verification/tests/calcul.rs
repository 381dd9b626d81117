use aegis_engine::calcul::ComputePipelineManager;

#[test]
fn _compute_pipeline_test_workgroup_count_calculation() {
    // 1000 particules avec des workgroups de 64 threads -> 16 workgroups
    assert_eq!(ComputePipelineManager::calculate_workgroup_count(1000, 64), 16);
    assert_eq!(ComputePipelineManager::calculate_workgroup_count(64, 64), 1);
    assert_eq!(ComputePipelineManager::calculate_workgroup_count(65, 64), 2);
    assert_eq!(ComputePipelineManager::calculate_workgroup_count(0, 64), 0);
}

#[test]
fn compute_pipeline_test_workgroup_count_calculation() {
    // 1000 particules avec des workgroups de 64 threads -> 16 workgroups
    assert_eq!(ComputePipelineManager::calculate_workgroup_count(1000, 64), 16);
    assert_eq!(ComputePipelineManager::calculate_workgroup_count(64, 64), 1);
    assert_eq!(ComputePipelineManager::calculate_workgroup_count(65, 64), 2);
    assert_eq!(ComputePipelineManager::calculate_workgroup_count(0, 64), 0);
}

#[test]
fn une_taille_de_groupe_nulle_ne_divise_pas_par_zero() {
    assert_eq!(ComputePipelineManager::calculate_workgroup_count(1000, 0), 0);
    assert_eq!(ComputePipelineManager::calculate_workgroup_count(u32::MAX, 1), u32::MAX);
    assert_eq!(ComputePipelineManager::calculate_workgroup_count(u32::MAX, 2), 1 << 31);
}
