use guacvex::vuln::{
    map_metadata, map_vulnerability, Cve, Ghsa, Metadata, Osv, Vulnerability, VulnerabilityInput,
};

fn present_slots(i: &VulnerabilityInput) -> usize {
    let mut n = 0;
    if i.cve.is_some() {
        n += 1;
    }
    if i.osv.is_some() {
        n += 1;
    }
    if i.ghsa.is_some() {
        n += 1;
    }
    if i.no_vuln.is_some() {
        n += 1;
    }
    n
}

#[test]
fn map_cve_exactly_one() {
    let v = Vulnerability::Cve(Cve {
        cve_id: "CVE-2021-44228".to_string(),
        year: 2021,
    });
    let i = map_vulnerability(v).unwrap();
    assert_eq!(present_slots(&i), 1);
    let cve = i.cve.unwrap();
    assert_eq!(cve.cve_id, "CVE-2021-44228");
    assert_eq!(cve.year, 2021);
}

#[test]
fn map_osv_exactly_one() {
    let v = Vulnerability::Osv(Osv {
        osv_id: "GHSA-jfh8-c2jp-5v3q".to_string(),
    });
    let i = map_vulnerability(v).unwrap();
    assert_eq!(present_slots(&i), 1);
    assert_eq!(i.osv.unwrap().osv_id, "GHSA-jfh8-c2jp-5v3q");
}

#[test]
fn map_ghsa_exactly_one() {
    let v = Vulnerability::Ghsa(Ghsa {
        ghsa_id: "ghsa-taco-vuln".to_string(),
    });
    let i = map_vulnerability(v).unwrap();
    assert_eq!(present_slots(&i), 1);
    assert_eq!(i.ghsa.unwrap().ghsa_id, "ghsa-taco-vuln");
}

#[test]
fn map_no_vuln_exactly_one() {
    let i = map_vulnerability(Vulnerability::NoVuln).unwrap();
    assert_eq!(present_slots(&i), 1);
    assert_eq!(i.no_vuln, Some(true));
}

#[test]
fn map_metadata_copies_fields() {
    let m = Metadata {
        db_uri: "http://db.example.com/".to_string(),
        db_version: "1.0".to_string(),
        scanner_uri: "collectorist-osv".to_string(),
        scanner_version: "1.0".to_string(),
        time_scanned: "2023-01-19T12:00:00Z".to_string(),
        collector: "collectorist-osv".to_string(),
        origin: "OSV".to_string(),
    };
    let i = map_metadata(m.clone()).unwrap();
    assert_eq!(i.db_uri, m.db_uri);
    assert_eq!(i.db_version, m.db_version);
    assert_eq!(i.scanner_uri, m.scanner_uri);
    assert_eq!(i.scanner_version, m.scanner_version);
    assert_eq!(i.time_scanned, m.time_scanned);
    assert_eq!(i.collector, m.collector);
    assert_eq!(i.origin, m.origin);
}
