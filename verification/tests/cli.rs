use render_component::cli::{validate_component, validate_root, Command};
use render_component::serve::serve_options;

fn missing() -> Result<String, String> {
    Err("No such file or directory (os error 2)".to_string())
}

#[test]
fn rejects_missing_root() {
    let err = validate_root("/definitely/not/a/real/dir/xyz", missing(), false);
    assert!(err.is_err());
    let msg = err.unwrap_err();
    assert!(msg.contains("cannot open project root"), "got: {msg}");
    assert_eq!(
        msg,
        "cannot open project root '/definitely/not/a/real/dir/xyz': No such file or directory (os error 2)"
    );
}

#[test]
fn rejects_file_as_root() {
    let err = validate_root("Cargo.toml", Ok("/work/Cargo.toml".to_string()), false);
    assert!(err.is_err());
    let msg = err.unwrap_err();
    assert!(msg.contains("not a directory"), "got: {msg}");
    assert_eq!(msg, "'/work/Cargo.toml' is not a directory");
}

#[test]
fn accepts_real_directory() {
    let dir = validate_root(".", Ok("/work".to_string()), true).expect("cwd is a directory");
    assert_eq!(dir, "/work");
}

#[test]
fn rejects_missing_component() {
    let err = validate_component("/definitely/not/a/component.ts", missing(), false);
    assert!(err.is_err());
    let msg = err.unwrap_err();
    assert!(msg.contains("cannot open component"), "got: {msg}");
}

#[test]
fn a_directory_is_no_component() {
    let err = validate_component("src", Ok("/work/src".to_string()), false);
    assert_eq!(err, Err("'/work/src' is not a file".to_string()));
    let ok = validate_component("a.ts", Ok("/work/a.ts".to_string()), true);
    assert_eq!(ok, Ok("/work/a.ts".to_string()));
}

#[test]
fn serve_arguments_have_defaults() {
    let command = Command::Serve {
        component: "app/x.component.ts".to_string(),
        root: None,
        port: None,
        selection_file: None,
        no_open: false,
    };
    let options = serve_options(command, "/tmp/selection.json".to_string());
    assert_eq!(options.component, "app/x.component.ts");
    assert_eq!(options.root, "app");
    assert_eq!(options.port, None);
    assert_eq!(options.selection_file, "/tmp/selection.json");
    assert!(options.open_browser);

    let command = Command::Serve {
        component: "app/x.component.ts".to_string(),
        root: Some("/work".to_string()),
        port: Some(4300),
        selection_file: Some("/run/sel.json".to_string()),
        no_open: true,
    };
    let options = serve_options(command, "/tmp/selection.json".to_string());
    assert_eq!(options.root, "/work");
    assert_eq!(options.port, Some(4300));
    assert_eq!(options.selection_file, "/run/sel.json");
    assert!(!options.open_browser);
}
