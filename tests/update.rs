use rojo::update::{
    approves_lowercase, binary_file_name, executable_extension, platform_name, release_download_url,
    release_file_name, release_version, UpdateCommand,
};

#[test]
fn release_names() {
    assert_eq!(release_version("v6.2.0"), Some("6.2.0".to_string()));
    assert_eq!(release_version(""), None);
    assert_eq!(platform_name("linux"), Some("linux".to_string()));
    assert_eq!(platform_name("macos"), Some("macos".to_string()));
    assert_eq!(platform_name("windows"), Some("win64".to_string()));
    assert_eq!(platform_name("freebsd"), None);
    assert_eq!(executable_extension("windows"), ".exe");
    assert_eq!(executable_extension("linux"), "");
    assert_eq!(binary_file_name("windows"), "Rojo.exe");
    assert_eq!(binary_file_name("macos"), "Rojo");
    assert_eq!(release_file_name("6.2.0", "win64"), "rojo-6.2.0-win64.zip");
    assert_eq!(
        release_download_url("6.2.0", "rojo-6.2.0-win64.zip"),
        "https://github.com/rojo-rbx/rojo/releases/download/v6.2.0/rojo-6.2.0-win64.zip"
    );
}

#[test]
fn answers() {
    assert!(UpdateCommand::confirms("Y\n"));
    assert!(UpdateCommand::confirms("  y "));
    assert!(!UpdateCommand::confirms("yes"));
    assert!(!UpdateCommand::confirms("n"));
    assert!(!UpdateCommand::confirms(""));
    assert!(approves_lowercase("y"));
    assert!(!approves_lowercase("Y"));
}

#[test]
fn chosen_version() {
    let asked = UpdateCommand { version: Some("1.0.0".to_string()) };
    assert_eq!(asked.version_to_install(Some("2.0.0".to_string())), Some("1.0.0".to_string()));
    let open = UpdateCommand { version: None };
    assert_eq!(open.version_to_install(Some("2.0.0".to_string())), Some("2.0.0".to_string()));
}
