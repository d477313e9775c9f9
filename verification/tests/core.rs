use distsync::dist::{
    BuiltDist, Dist, LocalEditable, ParsedUrl, PathKind, SourceDist, VerbatimParsedUrl,
};
use distsync::error::Error;
use distsync::filename::WheelFilename;
use distsync::name::PackageName;
use distsync::url::Url;
use distsync::version::Version;

fn plain_url(verbatim: &str, segments: &[&str]) -> Url {
    Url {
        scheme: "https".to_string(),
        userinfo: String::new(),
        host: "example.org".to_string(),
        port: None,
        segments: segments.iter().map(|s| s.to_string()).collect(),
        fragment: None,
        verbatim: verbatim.to_string(),
    }
}

#[test]
fn name_normalization() {
    let n = PackageName::parse("Flask_Login.Extra").unwrap();
    assert_eq!(n.as_str(), "flask-login-extra");
    let again = PackageName::parse(n.as_str()).unwrap();
    assert_eq!(again.as_str(), n.as_str());
    assert!(PackageName::parse("").is_none());
    assert!(PackageName::parse("has space").is_none());
}

#[test]
fn version_parse_and_compare() {
    let a = Version::parse("1.0").unwrap();
    let b = Version::parse("1.0.0").unwrap();
    assert!(a.same(&b));
    assert_eq!(a.as_str(), "1.0");
    let c = Version::parse("1.0.1").unwrap();
    assert!(a.below(&c));
    assert!(!c.below(&a));
    assert!(Version::parse("1.x").is_none());
    assert!(Version::parse("").is_none());
}

#[test]
fn wheel_filename_fields() {
    let w = WheelFilename::parse("flask-3.0.0-py3-none-any.whl").unwrap();
    assert_eq!(w.name.as_str(), "flask");
    assert_eq!(w.version.as_str(), "3.0.0");
    assert_eq!(w.python_tag, "py3");
    assert_eq!(w.abi_tag, "none");
    assert_eq!(w.platform_tag, "any");
    assert!(w.build_tag.is_none());
    let b = WheelFilename::parse("flask-3.0.0-1-py3-none-any.whl").unwrap();
    assert_eq!(b.build_tag.as_deref(), Some("1"));
    assert!(WheelFilename::parse("flask-3.0.0.whl").is_err());
    assert!(WheelFilename::parse("flask.tar.gz").is_err());
}

// Identity is stable under cosmetic differences: scheme case, an explicit
// default port, a trailing slash.
#[test]
fn identity_cosmetic_differences() {
    let a = Url {
        scheme: "https".to_string(),
        userinfo: String::new(),
        host: "example.org".to_string(),
        port: None,
        segments: vec!["pkg".to_string(), "flask".to_string()],
        fragment: None,
        verbatim: "https://example.org/pkg/flask".to_string(),
    };
    let b = Url {
        scheme: "HTTPS".to_string(),
        userinfo: String::new(),
        host: "Example.ORG".to_string(),
        port: Some(443),
        segments: vec!["pkg".to_string(), "flask".to_string(), "".to_string()],
        fragment: None,
        verbatim: "HTTPS://Example.ORG:443/pkg/flask/".to_string(),
    };
    assert_eq!(a.distribution_key(), b.distribution_key());
    assert_eq!(a.resource_key(), b.resource_key());
    // Percent-encoding is normalized: an encoded segment keys like its
    // plain form.
    let mut encoded = a.dup();
    encoded.segments = vec!["pkg".to_string(), "fl%61sk".to_string()];
    let mut plain = a.dup();
    plain.segments = vec!["pkg".to_string(), "flask".to_string()];
    assert_eq!(encoded.distribution_key(), plain.distribution_key());
    assert_eq!(encoded.resource_key(), plain.resource_key());
    // The revision fragment splits distribution identity but not resource
    // identity.
    let mut c = a.dup();
    c.fragment = Some("v2".to_string());
    assert_ne!(a.distribution_key(), c.distribution_key());
    assert_eq!(a.resource_key(), c.resource_key());
}

// The filename of a locator is its decoded last segment; the decoding runs
// through the outside percent decoder.
#[test]
fn url_filename_decoding() {
    let u = plain_url("https://example.org/my%20lib-1.0.tar.gz", &["my%20lib-1.0.tar.gz"]);
    assert_eq!(u.filename().unwrap(), "my lib-1.0.tar.gz");
    let plain = plain_url("https://example.org/flask", &["flask"]);
    assert_eq!(plain.filename().unwrap(), "flask");
    let empty = plain_url("https://example.org", &[]);
    assert!(matches!(empty.filename(), Err(Error::UrlFilename { .. })));
}

// Classification is total: every locator shape yields exactly one variant,
// and every variant is producible.
#[test]
fn taxonomy_totality() {
    let name = PackageName::parse("flask").unwrap();
    // A locator whose path ends in the artifact suffix: a prebuilt archive.
    let wheel_url = plain_url(
        "https://example.org/flask-3.0.0-py3-none-any.whl",
        &["flask-3.0.0-py3-none-any.whl"],
    );
    let d = Dist::from_http_url(name.dup(), wheel_url.dup(), None, wheel_url.dup()).unwrap();
    assert!(matches!(d, Dist::Built(BuiltDist::DirectUrl(_))));
    assert!(!d.is_editable());

    // A non-wheel locator: a source archive.
    let sdist_url = plain_url("https://example.org/flask-3.0.0.tar.gz", &["flask-3.0.0.tar.gz"]);
    let d = Dist::from_http_url(name.dup(), sdist_url.dup(), None, sdist_url.dup()).unwrap();
    assert!(matches!(d, Dist::Source(SourceDist::DirectUrl(_))));

    // A local directory honors the editable flag.
    let dir_url = plain_url("file:///work/flask", &["work", "flask"]);
    let d = Dist::from_file_url(
        name.dup(),
        "/work/flask".to_string(),
        PathKind::Directory,
        true,
        dir_url.dup(),
    )
    .unwrap();
    assert!(matches!(&d, Dist::Source(SourceDist::Directory(s)) if s.editable));
    assert!(d.is_editable());

    // A local wheel file.
    let whl_path_url = plain_url(
        "file:///work/flask-3.0.0-py3-none-any.whl",
        &["work", "flask-3.0.0-py3-none-any.whl"],
    );
    let d = Dist::from_file_url(
        name.dup(),
        "/work/flask-3.0.0-py3-none-any.whl".to_string(),
        PathKind::RegularFile,
        false,
        whl_path_url.dup(),
    )
    .unwrap();
    assert!(matches!(d, Dist::Built(BuiltDist::Path(_))));

    // A local source archive.
    let sdist_path_url =
        plain_url("file:///work/flask-3.0.0.tar.gz", &["work", "flask-3.0.0.tar.gz"]);
    let d = Dist::from_file_url(
        name.dup(),
        "/work/flask-3.0.0.tar.gz".to_string(),
        PathKind::RegularFile,
        false,
        sdist_path_url.dup(),
    )
    .unwrap();
    assert!(matches!(d, Dist::Source(SourceDist::Path(_))));

    // A repository locator.
    let git_url = plain_url("git+https://example.org/repo.git", &["repo.git"]);
    let d = Dist::from_git_url(name.dup(), git_url.dup(), git_url.dup(), None).unwrap();
    assert!(matches!(d, Dist::Source(SourceDist::Git(_))));

    // Dispatch over the parsed shape.
    let parsed = VerbatimParsedUrl {
        parsed_url: ParsedUrl::Archive { url: sdist_url.dup(), subdirectory: None },
        verbatim: sdist_url.dup(),
    };
    let d = Dist::from_url(name.dup(), parsed).unwrap();
    assert!(matches!(d, Dist::Source(SourceDist::DirectUrl(_))));

    // An editable declaration is always an editable source directory.
    let d = Dist::from_editable(
        name.dup(),
        LocalEditable { url: dir_url.dup(), path: "/work/flask".to_string() },
    )
    .unwrap();
    assert!(d.is_editable());
}

// A name mismatch between the requirement and the artifact filename is
// fatal.
#[test]
fn package_name_mismatch() {
    let name = PackageName::parse("foo").unwrap();
    let wheel_url = plain_url(
        "https://example/foo-1.2-py3-none-any.whl",
        &["bar-1.2-py3-none-any.whl"],
    );
    let r = Dist::from_http_url(name.dup(), wheel_url.dup(), None, wheel_url.dup());
    match r {
        Err(Error::PackageNameMismatch { requested, in_filename, .. }) => {
            assert_eq!(requested, "foo");
            assert_eq!(in_filename, "bar");
        },
        _ => panic!("expected a name mismatch"),
    }
}

// The editable flag is refused on anything but a directory.
#[test]
fn editable_file_is_refused() {
    let name = PackageName::parse("flask").unwrap();
    let u = plain_url("file:///work/flask-3.0.0.tar.gz", &["work", "flask-3.0.0.tar.gz"]);
    let r = Dist::from_file_url(
        name.dup(),
        "/work/flask-3.0.0.tar.gz".to_string(),
        PathKind::RegularFile,
        true,
        u.dup(),
    );
    assert!(matches!(r, Err(Error::EditableFile { .. })));
}

// A missing path is a distinct fatal error.
#[test]
fn missing_path_is_not_found() {
    let name = PackageName::parse("flask").unwrap();
    let u = plain_url("file:///work/none", &["work", "none"]);
    let r = Dist::from_file_url(name.dup(), "/work/none".to_string(), PathKind::Missing, false, u);
    assert!(matches!(r, Err(Error::NotFound { .. })));
}

#[test]
fn invalid_wheel_filename_from_url() {
    let name = PackageName::parse("foo").unwrap();
    let u = plain_url("https://example.org/foo.whl", &["foo.whl"]);
    let r = Dist::from_http_url(name.dup(), u.dup(), None, u.dup());
    assert!(matches!(r, Err(Error::InvalidFilename { .. })));
}

#[test]
fn git_filename_strips_checkout() {
    let name = PackageName::parse("pkg").unwrap();
    let u = plain_url("git+https://example.org/repo.git@v1.2", &["repo.git@v1.2"]);
    let d = Dist::from_git_url(name, u.dup(), u.dup(), None).unwrap();
    match d {
        Dist::Source(SourceDist::Git(g)) => {
            assert_eq!(g.remote_filename().unwrap(), "v1.2");
        },
        _ => panic!("expected a repository source"),
    }
}
