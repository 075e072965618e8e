use workforest_core::config::{metadata_path, repos_config_path};

#[test]
fn repos_config_path_names_the_toml_file() {
    if let Some(path) = repos_config_path() {
        assert!(path.ends_with("/repos.toml"));
    }
}

#[test]
fn metadata_path_names_the_server_file() {
    if let Some(path) = metadata_path() {
        assert!(path.ends_with("/server.json"));
    }
}
