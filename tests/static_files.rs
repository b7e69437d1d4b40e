use highnoon::{Resolved, StaticFiles};

fn file(r: Resolved) -> Option<String> {
    match r {
        Resolved::File(f) => Some(f),
        _ => None,
    }
}

#[test]
fn resolves_under_root() {
    let sf = StaticFiles::new("/srv/www", "/static/*path");
    assert_eq!(file(sf.resolve("/static/a/b.txt")), Some("/srv/www/a/b.txt".to_string()));
    assert_eq!(file(sf.resolve("/static/a/../b.txt")), Some("/srv/www/b.txt".to_string()));
    assert_eq!(file(sf.resolve("/static/./a//b")), Some("/srv/www/a/b".to_string()));
    assert_eq!(file(sf.resolve("/static/../www/x")), Some("/srv/www/x".to_string()));
}

#[test]
fn climbing_out_is_forbidden() {
    let sf = StaticFiles::new("/srv/www", "/static/*path");
    assert!(matches!(sf.resolve("/static/../secret"), Resolved::Forbidden));
    assert!(matches!(sf.resolve("/static/a/../../x"), Resolved::Forbidden));
}

#[test]
fn outside_prefix() {
    let sf = StaticFiles::new("/srv/www", "/static/*path");
    assert!(matches!(sf.resolve("/other/x"), Resolved::OutsidePrefix));
    assert!(matches!(sf.resolve("static/x"), Resolved::OutsidePrefix));
}

#[test]
fn relative_root() {
    let sf = StaticFiles::new("public", "/files/*path");
    assert_eq!(file(sf.resolve("/files/css/site.css")), Some("public/css/site.css".to_string()));
}
