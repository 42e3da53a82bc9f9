//! The internal vulnerability taxonomy and its mapping into the query
//! service's input shapes.
//!
//! The service expects a `VulnerabilityInput` with *exactly one* of its four
//! optional slots present; `map_vulnerability` guarantees that invariant for
//! every variant, and `lemma_map_vulnerability_exactly_one` states it once
//! and for all.

use vstd::prelude::*;

verus! {

/// A CVE-sourced vulnerability identifier.
#[derive(Clone, Debug, PartialEq, Eq)]
pub struct Cve {
    pub cve_id: String,
    pub year: i64,
}

/// An OSV-sourced vulnerability identifier.
#[derive(Clone, Debug, PartialEq, Eq)]
pub struct Osv {
    pub osv_id: String,
}

/// A GHSA-sourced vulnerability identifier.
#[derive(Clone, Debug, PartialEq, Eq)]
pub struct Ghsa {
    pub ghsa_id: String,
}

/// An internal vulnerability value: exactly one source, or the explicit
/// "no known vulnerability" marker.
#[derive(Clone, Debug, PartialEq, Eq)]
pub enum Vulnerability {
    Cve(Cve),
    Osv(Osv),
    Ghsa(Ghsa),
    NoVuln,
}

/// Provenance metadata for one certification, passed through unchanged.
#[derive(Clone, Debug, PartialEq, Eq)]
pub struct Metadata {
    pub db_uri: String,
    pub db_version: String,
    pub scanner_uri: String,
    pub scanner_version: String,
    pub time_scanned: String,
    pub collector: String,
    pub origin: String,
}

/// The service's CVE input slot.
#[derive(Clone, Debug, PartialEq, Eq)]
pub struct CVEInputSpec {
    pub cve_id: String,
    pub year: i64,
}

/// The service's OSV input slot.
#[derive(Clone, Debug, PartialEq, Eq)]
pub struct OSVInputSpec {
    pub osv_id: String,
}

/// The service's GHSA input slot.
#[derive(Clone, Debug, PartialEq, Eq)]
pub struct GHSAInputSpec {
    pub ghsa_id: String,
}

/// The service's vulnerability input: an all-optional record whose contract
/// is that exactly one slot is present.
#[derive(Clone, Debug, PartialEq, Eq)]
pub struct VulnerabilityInput {
    pub cve: Option<CVEInputSpec>,
    pub osv: Option<OSVInputSpec>,
    pub ghsa: Option<GHSAInputSpec>,
    pub no_vuln: Option<bool>,
}

/// The service's metadata input: a field-for-field copy of `Metadata`.
#[derive(Clone, Debug, PartialEq, Eq)]
pub struct VulnerabilityMetaDataInput {
    pub db_uri: String,
    pub db_version: String,
    pub scanner_uri: String,
    pub scanner_version: String,
    pub time_scanned: String,
    pub collector: String,
    pub origin: String,
}

/// Reserved for validation of vulnerability or metadata inputs; the mappings
/// below are total today, so no value of this type is ever produced.
#[derive(Clone, Copy, Debug, PartialEq, Eq, Structural)]
pub enum MappingError {
    Invalid,
}

/// What `map_vulnerability` returns: the one slot matching the variant is
/// present, the other three are absent.
pub open spec fn spec_map_vulnerability(v: Vulnerability) -> VulnerabilityInput {
    match v {
        Vulnerability::Cve(c) => VulnerabilityInput {
            cve: Option::Some(CVEInputSpec { cve_id: c.cve_id, year: c.year }),
            osv: Option::None,
            ghsa: Option::None,
            no_vuln: Option::None,
        },
        Vulnerability::Osv(o) => VulnerabilityInput {
            cve: Option::None,
            osv: Option::Some(OSVInputSpec { osv_id: o.osv_id }),
            ghsa: Option::None,
            no_vuln: Option::None,
        },
        Vulnerability::Ghsa(g) => VulnerabilityInput {
            cve: Option::None,
            osv: Option::None,
            ghsa: Option::Some(GHSAInputSpec { ghsa_id: g.ghsa_id }),
            no_vuln: Option::None,
        },
        Vulnerability::NoVuln => VulnerabilityInput {
            cve: Option::None,
            osv: Option::None,
            ghsa: Option::None,
            no_vuln: Option::Some(true),
        },
    }
}

/// Exactly one of the four optional slots is present.
pub open spec fn exactly_one_present(i: VulnerabilityInput) -> bool {
    ||| (i.cve is Some && i.osv is None && i.ghsa is None && i.no_vuln is None)
    ||| (i.cve is None && i.osv is Some && i.ghsa is None && i.no_vuln is None)
    ||| (i.cve is None && i.osv is None && i.ghsa is Some && i.no_vuln is None)
    ||| (i.cve is None && i.osv is None && i.ghsa is None && i.no_vuln is Some)
}

/// Maps a vulnerability value to the service's input shape.  Total: the
/// `Result` only reserves room for future validation.
pub fn map_vulnerability(v: Vulnerability) -> (r: Result<VulnerabilityInput, MappingError>)
    ensures
        r == Result::Ok::<_, MappingError>(spec_map_vulnerability(v)),
{
    match v {
        Vulnerability::Cve(c) => Result::Ok(
            VulnerabilityInput {
                cve: Option::Some(CVEInputSpec { cve_id: c.cve_id, year: c.year }),
                osv: Option::None,
                ghsa: Option::None,
                no_vuln: Option::None,
            },
        ),
        Vulnerability::Osv(o) => Result::Ok(
            VulnerabilityInput {
                cve: Option::None,
                osv: Option::Some(OSVInputSpec { osv_id: o.osv_id }),
                ghsa: Option::None,
                no_vuln: Option::None,
            },
        ),
        Vulnerability::Ghsa(g) => Result::Ok(
            VulnerabilityInput {
                cve: Option::None,
                osv: Option::None,
                ghsa: Option::Some(GHSAInputSpec { ghsa_id: g.ghsa_id }),
                no_vuln: Option::None,
            },
        ),
        Vulnerability::NoVuln => Result::Ok(
            VulnerabilityInput {
                cve: Option::None,
                osv: Option::None,
                ghsa: Option::None,
                no_vuln: Option::Some(true),
            },
        ),
    }
}

/// For every variant, the mapped input has exactly one slot present and the
/// other three absent.
pub proof fn lemma_map_vulnerability_exactly_one(v: Vulnerability)
    ensures
        exactly_one_present(spec_map_vulnerability(v)),
{
}

/// What `map_metadata` returns: every field copied unchanged.
pub open spec fn spec_map_metadata(m: Metadata) -> VulnerabilityMetaDataInput {
    VulnerabilityMetaDataInput {
        db_uri: m.db_uri,
        db_version: m.db_version,
        scanner_uri: m.scanner_uri,
        scanner_version: m.scanner_version,
        time_scanned: m.time_scanned,
        collector: m.collector,
        origin: m.origin,
    }
}

/// Maps certification metadata to the service's input shape, field for
/// field.  Total: the `Result` only reserves room for future validation.
pub fn map_metadata(m: Metadata) -> (r: Result<VulnerabilityMetaDataInput, MappingError>)
    ensures
        r == Result::Ok::<_, MappingError>(spec_map_metadata(m)),
{
    Result::Ok(
        VulnerabilityMetaDataInput {
            db_uri: m.db_uri,
            db_version: m.db_version,
            scanner_uri: m.scanner_uri,
            scanner_version: m.scanner_version,
            time_scanned: m.time_scanned,
            collector: m.collector,
            origin: m.origin,
        },
    )
}

} // verus!
