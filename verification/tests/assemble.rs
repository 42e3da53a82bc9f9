use guacvex::client::IngestCertifyVuln;
use guacvex::vex::{
    assemble, build_statement, openvex, CertificationResult, ResultNamespace, ResultPackage,
    ResultVulnerability, Status,
};
use guacvex::vuln::{Metadata, Vulnerability, Ghsa};

fn result_with(vulnerability: ResultVulnerability, time_scanned: &str) -> CertificationResult {
    CertificationResult {
        package: ResultPackage {
            namespaces: vec![ResultNamespace {
                names: vec!["log4j-core".to_string()],
            }],
        },
        vulnerability,
        time_scanned: time_scanned.to_string(),
    }
}

const VALID_TS: &str = "2023-01-19T12:00:00Z";

#[test]
fn osv_id_extracted() {
    let results = vec![result_with(
        ResultVulnerability::Osv {
            osv_id: vec!["CVE-2099-0001".to_string()],
        },
        VALID_TS,
    )];
    let (doc, skipped) = assemble(&results);
    assert_eq!(skipped, 0);
    assert_eq!(doc.statements.len(), 1);
    let st = &doc.statements[0];
    assert_eq!(st.vulnerability.as_deref(), Some("CVE-2099-0001"));
    assert_eq!(
        st.action_statement.as_deref(),
        Some("Review CVE-2099-0001 for details on the appropriate action")
    );
}

#[test]
fn fallback_sentinel() {
    let variants = vec![
        ResultVulnerability::Cve {
            cve_id: "CVE-2021-44228".to_string(),
        },
        ResultVulnerability::Ghsa {
            ghsa_id: "ghsa-taco-vuln".to_string(),
        },
        ResultVulnerability::NoVuln,
        ResultVulnerability::Osv { osv_id: vec![] },
    ];
    for v in variants {
        let results = vec![result_with(v, VALID_TS)];
        let (doc, _) = assemble(&results);
        assert_eq!(doc.statements[0].vulnerability.as_deref(), Some("NOT_SET"));
        assert_eq!(
            doc.statements[0].action_statement.as_deref(),
            Some("Review NOT_SET for details on the appropriate action")
        );
    }
}

#[test]
fn statement_count_matches_input() {
    let results = vec![
        result_with(
            ResultVulnerability::Osv {
                osv_id: vec!["OSV-1".to_string()],
            },
            VALID_TS,
        ),
        result_with(
            ResultVulnerability::Osv {
                osv_id: vec!["OSV-2".to_string()],
            },
            VALID_TS,
        ),
        result_with(
            ResultVulnerability::Osv {
                osv_id: vec!["OSV-3".to_string()],
            },
            VALID_TS,
        ),
    ];
    let (doc, skipped) = assemble(&results);
    assert_eq!(skipped, 0);
    assert_eq!(doc.statements.len(), 3);
    assert_eq!(doc.statements[0].vulnerability.as_deref(), Some("OSV-1"));
    assert_eq!(doc.statements[1].vulnerability.as_deref(), Some("OSV-2"));
    assert_eq!(doc.statements[2].vulnerability.as_deref(), Some("OSV-3"));
}

#[test]
fn invalid_timestamp_skipped() {
    let results = vec![
        result_with(
            ResultVulnerability::Osv {
                osv_id: vec!["OSV-1".to_string()],
            },
            VALID_TS,
        ),
        result_with(
            ResultVulnerability::Osv {
                osv_id: vec!["OSV-2".to_string()],
            },
            "not-a-timestamp",
        ),
        result_with(
            ResultVulnerability::Osv {
                osv_id: vec!["OSV-3".to_string()],
            },
            VALID_TS,
        ),
    ];
    let (doc, skipped) = assemble(&results);
    assert_eq!(skipped, 1);
    assert_eq!(doc.statements.len(), 2);
    assert_eq!(doc.statements[0].vulnerability.as_deref(), Some("OSV-1"));
    assert_eq!(doc.statements[1].vulnerability.as_deref(), Some("OSV-3"));
}

#[test]
fn empty_namespaces_skipped() {
    let results = vec![CertificationResult {
        package: ResultPackage { namespaces: vec![] },
        vulnerability: ResultVulnerability::NoVuln,
        time_scanned: VALID_TS.to_string(),
    }];
    let (doc, skipped) = assemble(&results);
    assert_eq!(skipped, 1);
    assert_eq!(doc.statements.len(), 0);
}

#[test]
fn empty_names_skipped() {
    let results = vec![CertificationResult {
        package: ResultPackage {
            namespaces: vec![ResultNamespace { names: vec![] }],
        },
        vulnerability: ResultVulnerability::NoVuln,
        time_scanned: VALID_TS.to_string(),
    }];
    let (doc, skipped) = assemble(&results);
    assert_eq!(skipped, 1);
    assert_eq!(doc.statements.len(), 0);
}

#[test]
fn statement_fields() {
    let results = vec![result_with(
        ResultVulnerability::Osv {
            osv_id: vec!["OSV-9".to_string()],
        },
        VALID_TS,
    )];
    let (doc, _) = assemble(&results);
    let st = &doc.statements[0];
    assert_eq!(st.status, Status::Affected);
    assert_eq!(
        st.status_notes.as_deref(),
        Some("Vulnerabilities reported by Guac")
    );
    assert_eq!(st.timestamp.as_deref(), Some(VALID_TS));
    assert_eq!(st.products, vec!["log4j-core".to_string()]);
    assert!(st.subcomponents.is_empty());
    assert_eq!(st.justification, None);
    assert_eq!(st.vuln_description, None);
    assert_eq!(st.impact_statement, None);
    assert_eq!(
        st.action_statement_timestamp.as_deref(),
        doc.metadata.timestamp.as_deref()
    );
}

#[test]
fn build_statement_rejects_bad_timestamp() {
    let r = result_with(ResultVulnerability::NoVuln, "2023-13-99T99:99:99Z");
    let t = "2023-01-19T12:00:00Z".to_string();
    assert!(build_statement(&r, &t).is_none());
    let ok = result_with(ResultVulnerability::NoVuln, VALID_TS);
    assert!(build_statement(&ok, &t).is_some());
}

#[test]
fn document_metadata_fixed() {
    let doc = openvex();
    assert_eq!(doc.metadata.context, "https://openvex.dev/ns");
    assert!(doc
        .metadata
        .id
        .starts_with("https://seedwing.io/ROOT/generated/"));
    assert_eq!(doc.metadata.id.chars().count(), 35 + 36);
    assert_eq!(doc.metadata.author, "Seedwing Policy Engine");
    assert_eq!(doc.metadata.role, "Document Creator");
    assert_eq!(doc.metadata.version, "1");
    assert_eq!(doc.metadata.tooling.as_deref(), Some("Seedwing Policy Engine"));
    assert_eq!(doc.metadata.supplier.as_deref(), Some("seedwing.io"));
    assert!(doc.metadata.timestamp.is_some());
    assert!(doc.statements.is_empty());
}

#[test]
fn two_documents_have_distinct_ids() {
    let a = openvex();
    let b = openvex();
    assert_ne!(a.metadata.id, b.metadata.id);
}

#[test]
fn ingest_variables_shaped() {
    let meta = Metadata {
        db_uri: "http://db.example.com/".to_string(),
        db_version: "1.0".to_string(),
        scanner_uri: "collectorist-osv".to_string(),
        scanner_version: "1.0".to_string(),
        time_scanned: VALID_TS.to_string(),
        collector: "collectorist-osv".to_string(),
        origin: "OSV".to_string(),
    };
    let vuln = Vulnerability::Ghsa(Ghsa {
        ghsa_id: "ghsa-taco-vuln".to_string(),
    });
    let (pkg, vuln_input, meta_input) = IngestCertifyVuln::variables(
        "pkg:maven/org.apache.logging.log4j/log4j-core@2.13.0",
        vuln,
        meta,
    )
    .unwrap();
    assert_eq!(pkg.name, "log4j-core");
    assert_eq!(vuln_input.ghsa.unwrap().ghsa_id, "ghsa-taco-vuln");
    assert!(vuln_input.cve.is_none());
    assert!(vuln_input.osv.is_none());
    assert!(vuln_input.no_vuln.is_none());
    assert_eq!(meta_input.origin, "OSV");

    assert!(IngestCertifyVuln::variables(
        "not-a-purl",
        Vulnerability::NoVuln,
        Metadata {
            db_uri: String::new(),
            db_version: String::new(),
            scanner_uri: String::new(),
            scanner_version: String::new(),
            time_scanned: String::new(),
            collector: String::new(),
            origin: String::new(),
        }
    )
    .is_err());
}
