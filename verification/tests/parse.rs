use guacvex::purl::{parse, serialize, ParseError};

#[test]
fn parse_maven_no_qualifiers() {
    let p = parse("pkg:maven/org.apache.logging.log4j/log4j-core@2.13.0").unwrap();
    assert_eq!(p.type_, "maven");
    assert_eq!(p.namespace.as_deref(), Some("org.apache.logging.log4j"));
    assert_eq!(p.name, "log4j-core");
    assert_eq!(p.version.as_deref(), Some("2.13.0"));
    assert_eq!(p.subpath, None);
    assert!(p.qualifiers.is_none());
}

#[test]
fn parse_one_qualifier() {
    let p = parse("pkg:maven/a/b@1?k=v").unwrap();
    let qs = p.qualifiers.unwrap();
    assert_eq!(qs.len(), 1);
    assert_eq!(qs[0].key, "k");
    assert_eq!(qs[0].value, "v");
}

#[test]
fn parse_rejects_non_purl() {
    assert_eq!(parse("not-a-purl").unwrap_err(), ParseError::InvalidScheme);
}

#[test]
fn parse_rejects_missing_name() {
    assert_eq!(parse("pkg:maven").unwrap_err(), ParseError::MissingName);
    assert_eq!(parse("pkg:maven/").unwrap_err(), ParseError::MissingName);
    assert_eq!(parse("pkg:maven/ns/").unwrap_err(), ParseError::MissingName);
}

#[test]
fn parse_rejects_bad_percent() {
    assert_eq!(
        parse("pkg:maven/a/b%2").unwrap_err(),
        ParseError::InvalidPercentEncoding
    );
    assert_eq!(
        parse("pkg:maven/a/b%zz@1").unwrap_err(),
        ParseError::InvalidPercentEncoding
    );
}

#[test]
fn parse_accepts_good_percent() {
    let p = parse("pkg:maven/a/b%2Fc@1").unwrap();
    assert_eq!(p.name, "b%2Fc");
}

#[test]
fn parse_rejects_empty_version() {
    assert_eq!(parse("pkg:maven/a/b@").unwrap_err(), ParseError::EmptyVersion);
}

#[test]
fn parse_rejects_bad_type() {
    assert_eq!(parse("pkg:1maven/a/b").unwrap_err(), ParseError::InvalidType);
    assert_eq!(parse("pkg:/a/b").unwrap_err(), ParseError::InvalidType);
}

#[test]
fn parse_rejects_empty_qualifiers() {
    assert_eq!(parse("pkg:maven/a/b?").unwrap_err(), ParseError::InvalidQualifier);
    assert_eq!(parse("pkg:maven/a/b?k").unwrap_err(), ParseError::InvalidQualifier);
    assert_eq!(parse("pkg:maven/a/b?=v").unwrap_err(), ParseError::InvalidQualifier);
}

#[test]
fn parse_rejects_empty_subpath() {
    assert_eq!(parse("pkg:maven/a/b#").unwrap_err(), ParseError::EmptySubpath);
}

#[test]
fn parse_subpath_and_qualifiers() {
    let p = parse("pkg:golang/google.golang.org/genproto@abcdedf?arch=amd64&os=linux#googleapis/api/annotations")
        .unwrap();
    assert_eq!(p.type_, "golang");
    assert_eq!(p.namespace.as_deref(), Some("google.golang.org"));
    assert_eq!(p.name, "genproto");
    assert_eq!(p.version.as_deref(), Some("abcdedf"));
    assert_eq!(p.subpath.as_deref(), Some("googleapis/api/annotations"));
    let qs = p.qualifiers.unwrap();
    assert_eq!(qs.len(), 2);
    assert_eq!(qs[0].key, "arch");
    assert_eq!(qs[0].value, "amd64");
    assert_eq!(qs[1].key, "os");
    assert_eq!(qs[1].value, "linux");
}

#[test]
fn parse_namespace_with_at_sign() {
    let p = parse("pkg:npm/@babel/core@7.0.0").unwrap();
    assert_eq!(p.namespace.as_deref(), Some("@babel"));
    assert_eq!(p.name, "core");
    assert_eq!(p.version.as_deref(), Some("7.0.0"));

    let p = parse("pkg:npm/@babel/core").unwrap();
    assert_eq!(p.namespace.as_deref(), Some("@babel"));
    assert_eq!(p.name, "core");
    assert_eq!(p.version, None);
}

#[test]
fn parse_no_namespace() {
    let p = parse("pkg:cargo/serde@1.0.0").unwrap();
    assert_eq!(p.namespace, None);
    assert_eq!(p.name, "serde");
}

#[test]
fn round_trip_identifiers() {
    let inputs = [
        "pkg:maven/org.apache.logging.log4j/log4j-core@2.13.0",
        "pkg:maven/a/b@1?k=v",
        "pkg:cargo/serde@1.0.0",
        "pkg:npm/@babel/core@7.0.0",
        "pkg:golang/google.golang.org/genproto@abcdedf?arch=amd64&os=linux#googleapis/api/annotations",
        "pkg:oci/debian@sha256%3A244fd47e07d10?repository_url=docker.io/library/debian&tag=latest",
    ];
    for s in inputs {
        let p = parse(s).unwrap();
        let out = serialize(&p);
        assert_eq!(out, s);
        let p2 = parse(out.as_str()).unwrap();
        assert_eq!(p2, p);
    }
}

#[test]
fn parse_error_messages() {
    assert_eq!(
        parse("not-a-purl").unwrap_err().message(),
        "identifier does not start with the pkg scheme"
    );
    assert_eq!(
        parse("pkg:maven/a/b%2").unwrap_err().message(),
        "percent sign without two hexadecimal digits"
    );
}

#[test]
fn serialize_drops_absent_components() {
    let p = parse("pkg:cargo/serde").unwrap();
    assert_eq!(serialize(&p), "pkg:cargo/serde");
}
