//! Where the reference data and kernel programs live, below a data directory.
use vstd::prelude::*;

verus! {

/// The data directory: the configured one, or `rust/data` when none is configured.
pub fn get_data_path(configured: Option<String>) -> (r: String)
    ensures
        match configured {
            Some(d) => r@ == d@,
            None => r@ == "rust/data"@,
        },
{
    match configured {
        Some(d) => d,
        None => String::from_str("rust/data"),
    }
}

/// Directory, below the data directory, that holds the kernel programs.
pub fn get_shader_path(data_path: &str) -> (r: String)
    ensures
        r@ == data_path@ + "/shaders"@,
{
    let r = String::from_str(data_path);
    r.concat("/shaders")
}

/// The bond-distance table, below the data directory.
pub fn get_bond_distances_path(data_path: &str) -> (r: String)
    ensures
        r@ == data_path@ + "/bond_distances.yml"@,
{
    let r = String::from_str(data_path);
    r.concat("/bond_distances.yml")
}

/// The atom-property table, below the data directory.
pub fn get_atom_properties_path(data_path: &str) -> (r: String)
    ensures
        r@ == data_path@ + "/atom_properties.yml"@,
{
    let r = String::from_str(data_path);
    r.concat("/atom_properties.yml")
}

/// The program file of a kernel variant, below the data directory.
pub fn kernel_path(data_path: &str, file: &str) -> (r: String)
    ensures
        r@ == data_path@ + "/shaders"@ + "/"@ + file@,
{
    let dir = get_shader_path(data_path);
    let with_slash = dir.concat("/");
    with_slash.concat(file)
}

} // verus!
