use ratpack::params::Params;
use ratpack::path::{Path, RoutePart};

#[test]
fn test_path() {
    let path = Path::new("/abc/def/ghi".to_string());
    assert!(path.matches("/abc/def/ghi".to_string()));
    assert!(path.matches("//abc/def/ghi".to_string()));
    assert!(!path.matches("/def/ghi".to_string()));
    assert!(path.params().is_empty());

    let path = Path::new("/abc/:def/:ghi/jkl".to_string());
    assert!(!path.matches("/abc/def/ghi".to_string()));
    assert!(path.matches("/abc/def/ghi/jkl".to_string()));
    assert!(path.matches("/abc/ghi/def/jkl".to_string()));
    assert!(path.matches("/abc/wooble/wakka/jkl".to_string()));
    assert!(!path.matches("/nope/ghi/def/jkl".to_string()));
    assert!(!path.matches("/abc/ghi/def/nope".to_string()));
    assert_eq!(path.params().len(), 2);

    let mut bt = Params::new();
    bt.insert("def".to_string(), "wooble".to_string());
    bt.insert("ghi".to_string(), "wakka".to_string());

    assert_eq!(
        path.extract("/abc/wooble/wakka/jkl".to_string()).unwrap(),
        bt
    );
    assert!(path.extract("/wooble/wakka/jkl".to_string()).is_err());
    assert!(path.extract("/def/wooble/wakka/jkl".to_string()).is_err());

    assert_eq!(
        Path::new("/abc/:wooble/:wakka/jkl".to_string()).to_string(),
        "/abc/:wooble/:wakka/jkl".to_string()
    );

    assert_eq!(
        Path::new("/".to_string()).extract("/".to_string()).unwrap(),
        Params::default()
    );

    assert_eq!(
        Path::new("/account/".to_string()),
        Path::new("/account".to_string())
    );

    assert_eq!(Path::default().to_string(), "/".to_string());

    let path = Path::new("/".to_string());
    assert!(path.matches("/".to_string()));
}

#[test]
fn test_path_root_equivalence() {
    assert!(Path::new("/".to_string()).matches("/".to_string()));
    assert!(Path::new("".to_string()).matches("/".to_string()));
}

#[test]
fn test_path_literal_trailing_slash() {
    let path = Path::new("/x/y".to_string());
    assert!(path.matches("/x/y".to_string()));
    assert!(path.matches("/x/y/".to_string()));
    assert!(!path.matches("/x/y/extra".to_string()));
}

#[test]
fn test_path_param_names_in_order() {
    let path = Path::new("/a/:first/b/:second/:third".to_string());
    let names = path.params();
    assert_eq!(
        names,
        vec![
            "first".to_string(),
            "second".to_string(),
            "third".to_string()
        ]
    );
}

#[test]
fn test_path_extract_pairs() {
    let path = Path::new("/a/:x/:y/b".to_string());
    let params = path.extract("/a/1/2/b".to_string()).unwrap();
    assert_eq!(params.get(&"x".to_string()).unwrap().as_str(), "1");
    assert_eq!(params.get(&"y".to_string()).unwrap().as_str(), "2");

    let mut expected = Params::new();
    expected.insert("x".to_string(), "1".to_string());
    expected.insert("y".to_string(), "2".to_string());
    assert_eq!(path.extract("/a/1/2/b".to_string()).unwrap(), expected);
}

#[test]
fn test_path_extract_mismatch_is_error() {
    let path = Path::new("/a/:x/:y/b".to_string());
    assert!(path.extract("/nope".to_string()).is_err());
}

#[test]
fn test_path_extract_error_messages() {
    let path = Path::new("/a/:x/:y/b".to_string());
    match path.extract("/nope".to_string()).unwrap_err() {
        ratpack::Error::InternalServerError(m) => {
            assert_eq!(m, "invalid parameters".to_string())
        }
        _ => panic!("expected an internal error"),
    }
    match path.extract("/a/1/2/zzz".to_string()).unwrap_err() {
        ratpack::Error::InternalServerError(m) => {
            assert_eq!(m, "invalid path for parameter extraction".to_string())
        }
        _ => panic!("expected an internal error"),
    }
}

#[test]
fn test_path_push_appends_part() {
    let mut path = Path::new("/a".to_string());
    let grown = path.push(RoutePart::PathComponent("b".to_string()));
    assert_eq!(grown, path);
    assert_eq!(path.to_string(), "/a/b".to_string());
    assert!(path.matches("/a/b".to_string()));
}

#[test]
fn test_path_duplicate_param_last_wins() {
    let path = Path::new("/p/:x/:x".to_string());
    let params = path.extract("/p/1/2".to_string()).unwrap();
    assert_eq!(params.get(&"x".to_string()).unwrap().as_str(), "2");
}

#[test]
fn test_params_insert_replaces() {
    let mut params = Params::new();
    assert!(params.is_empty());
    params.insert("k".to_string(), "old".to_string());
    params.insert("k".to_string(), "new".to_string());
    assert_eq!(params.get(&"k".to_string()).unwrap().as_str(), "new");
    assert!(params.get(&"missing".to_string()).is_none());
    assert!(!params.is_empty());
}
