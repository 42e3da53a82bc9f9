//! Request shaping for the query service's operations.
//!
//! Each operation is a marker type whose `variables` builder produces the
//! strongly-typed inputs the service expects.  Submitting the operations is
//! transport work and stays outside the library.

use vstd::prelude::*;

use crate::purl::{parse, parse_result_view, spec_parse, ParseError, PkgInputSpec, PurlParts};
use crate::vuln::{
    spec_map_metadata, spec_map_vulnerability, map_metadata, map_vulnerability, Metadata,
    Vulnerability, VulnerabilityInput, VulnerabilityMetaDataInput,
};

verus! {

/// The package-ingestion mutation.
pub struct IngestPackage;

impl IngestPackage {
    /// Builds the mutation's package input from an identifier string.
    pub fn variables(purl: &str) -> (r: Result<PkgInputSpec, ParseError>)
        ensures
            parse_result_view(r) == spec_parse(purl@),
    {
        parse(purl)
    }
}

/// The vulnerability-certification mutation.
pub struct IngestCertifyVuln;

impl IngestCertifyVuln {
    /// Builds the mutation's inputs: the parsed package, the mapped
    /// vulnerability (exactly one slot present) and the copied metadata.
    pub fn variables(purl: &str, vulnerability: Vulnerability, meta: Metadata) -> (r: Result<
        (PkgInputSpec, VulnerabilityInput, VulnerabilityMetaDataInput),
        ParseError,
    >)
        ensures
            match r {
                Result::Ok(t) => {
                    &&& spec_parse(purl@) == Result::Ok::<_, ParseError>(t.0@)
                    &&& t.1 == spec_map_vulnerability(vulnerability)
                    &&& t.2 == spec_map_metadata(meta)
                },
                Result::Err(e) => spec_parse(purl@) == Result::Err::<PurlParts, _>(e),
            },
    {
        let pkg = match parse(purl) {
            Result::Ok(p) => p,
            Result::Err(e) => {
                return Result::Err(e);
            },
        };
        let vuln_input = match map_vulnerability(vulnerability) {
            Result::Ok(v) => v,
            Result::Err(_) => {
                return vstd::pervasive::unreached();
            },
        };
        let meta_input = match map_metadata(meta) {
            Result::Ok(m) => m,
            Result::Err(_) => {
                return vstd::pervasive::unreached();
            },
        };
        Result::Ok((pkg, vuln_input, meta_input))
    }
}

/// The query that retrieves every vulnerability certification; its results
/// feed `crate::vex::assemble`.
pub struct Q4;

} // verus!
