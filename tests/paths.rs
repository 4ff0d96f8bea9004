use rustquantic::paths::{get_atom_properties_path, get_bond_distances_path, get_data_path, get_shader_path, kernel_path};

#[test]
fn data_path_defaults() {
    assert_eq!(get_data_path(None), "rust/data");
    assert_eq!(get_data_path(Some("/opt/d".to_string())), "/opt/d");
}

#[test]
fn paths_below_data_dir() {
    assert_eq!(get_shader_path("data"), "data/shaders");
    assert_eq!(get_bond_distances_path("data"), "data/bond_distances.yml");
    assert_eq!(get_atom_properties_path("d"), "d/atom_properties.yml");
    assert_eq!(kernel_path("d", "relax.wgsl"), "d/shaders/relax.wgsl");
}
