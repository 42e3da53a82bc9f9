//! Assembly of vulnerability-certification results into a
//! vulnerability-exchange document.
//!
//! Each well-formed result becomes one statement, in input order.  A result
//! with no namespace or no name, or whose scan timestamp is not RFC 3339, is
//! skipped and counted rather than aborting the run.

use vstd::prelude::*;

verus! {

/// One namespace entry of a certified package: the names below it.
#[derive(Clone, Debug, PartialEq, Eq)]
pub struct ResultNamespace {
    pub names: Vec<String>,
}

impl View for ResultNamespace {
    type V = Seq<Seq<char>>;

    open spec fn view(&self) -> Seq<Seq<char>> {
        self.names.deep_view()
    }
}

/// The package record of a certification result.
#[derive(Clone, Debug, PartialEq, Eq)]
pub struct ResultPackage {
    pub namespaces: Vec<ResultNamespace>,
}

impl View for ResultPackage {
    type V = Seq<Seq<Seq<char>>>;

    open spec fn view(&self) -> Seq<Seq<Seq<char>>> {
        self.namespaces@.map_values(|n: ResultNamespace| n@)
    }
}

/// The vulnerability value of a certification result.
#[derive(Clone, Debug, PartialEq, Eq)]
pub enum ResultVulnerability {
    Osv { osv_id: Vec<String> },
    Cve { cve_id: String },
    Ghsa { ghsa_id: String },
    NoVuln,
}

/// The mathematical value of a result's vulnerability.
pub enum VulnerabilityValue {
    Osv(Seq<Seq<char>>),
    Cve(Seq<char>),
    Ghsa(Seq<char>),
    NoVuln,
}

impl View for ResultVulnerability {
    type V = VulnerabilityValue;

    open spec fn view(&self) -> VulnerabilityValue {
        match self {
            ResultVulnerability::Osv { osv_id } => VulnerabilityValue::Osv(osv_id.deep_view()),
            ResultVulnerability::Cve { cve_id } => VulnerabilityValue::Cve(cve_id@),
            ResultVulnerability::Ghsa { ghsa_id } => VulnerabilityValue::Ghsa(ghsa_id@),
            ResultVulnerability::NoVuln => VulnerabilityValue::NoVuln,
        }
    }
}

/// One certification result, as the query service returns it.
#[derive(Clone, Debug, PartialEq, Eq)]
pub struct CertificationResult {
    pub package: ResultPackage,
    pub vulnerability: ResultVulnerability,
    /// The scan time, RFC 3339 encoded.
    pub time_scanned: String,
}

/// The mathematical value of a certification result.
#[verifier::ext_equal]
pub struct CertResultValue {
    pub package: Seq<Seq<Seq<char>>>,
    pub vulnerability: VulnerabilityValue,
    pub time_scanned: Seq<char>,
}

impl View for CertificationResult {
    type V = CertResultValue;

    open spec fn view(&self) -> CertResultValue {
        CertResultValue {
            package: self.package@,
            vulnerability: self.vulnerability@,
            time_scanned: self.time_scanned@,
        }
    }
}

/// A statement's status in the exchange document.
#[derive(Clone, Copy, Debug, PartialEq, Eq, Structural)]
pub enum Status {
    NotAffected,
    Affected,
    Fixed,
    UnderInvestigation,
}

/// One affected-product statement of the exchange document.
#[derive(Clone, Debug, PartialEq, Eq)]
pub struct Statement {
    pub vulnerability: Option<String>,
    pub vuln_description: Option<String>,
    pub timestamp: Option<String>,
    pub products: Vec<String>,
    pub subcomponents: Vec<String>,
    pub status: Status,
    pub status_notes: Option<String>,
    pub justification: Option<String>,
    pub impact_statement: Option<String>,
    pub action_statement: Option<String>,
    pub action_statement_timestamp: Option<String>,
}

/// The mathematical value of a statement.
#[verifier::ext_equal]
pub struct StatementValue {
    pub vulnerability: Option<Seq<char>>,
    pub vuln_description: Option<Seq<char>>,
    pub timestamp: Option<Seq<char>>,
    pub products: Seq<Seq<char>>,
    pub subcomponents: Seq<Seq<char>>,
    pub status: Status,
    pub status_notes: Option<Seq<char>>,
    pub justification: Option<Seq<char>>,
    pub impact_statement: Option<Seq<char>>,
    pub action_statement: Option<Seq<char>>,
    pub action_statement_timestamp: Option<Seq<char>>,
}

/// The view of an optional owned string.
pub open spec fn ostr_view(o: Option<String>) -> Option<Seq<char>> {
    match o {
        Option::Some(s) => Option::Some(s@),
        Option::None => Option::None,
    }
}

impl View for Statement {
    type V = StatementValue;

    open spec fn view(&self) -> StatementValue {
        StatementValue {
            vulnerability: ostr_view(self.vulnerability),
            vuln_description: ostr_view(self.vuln_description),
            timestamp: ostr_view(self.timestamp),
            products: self.products.deep_view(),
            subcomponents: self.subcomponents.deep_view(),
            status: self.status,
            status_notes: ostr_view(self.status_notes),
            justification: ostr_view(self.justification),
            impact_statement: ostr_view(self.impact_statement),
            action_statement: ostr_view(self.action_statement),
            action_statement_timestamp: ostr_view(self.action_statement_timestamp),
        }
    }
}

/// The generated metadata of the exchange document.
#[derive(Clone, Debug, PartialEq, Eq)]
pub struct DocumentMetadata {
    pub context: String,
    pub id: String,
    pub author: String,
    pub role: String,
    pub timestamp: Option<String>,
    pub version: String,
    pub tooling: Option<String>,
    pub supplier: Option<String>,
}

/// A vulnerability-exchange document: generated metadata and one statement
/// per processed result.
#[derive(Clone, Debug, PartialEq, Eq)]
pub struct VexDocument {
    pub metadata: DocumentMetadata,
    pub statements: Vec<Statement>,
}

/// Whether chrono accepts a string as RFC 3339; a function of the characters
/// alone.
pub uninterp spec fn rfc3339_ok(s: Seq<char>) -> bool;

/// Relies on chrono's `DateTime::parse_from_rfc3339`: a pure parser, so
/// whether it accepts a string depends on the characters alone.
#[verifier::external_body]
fn rfc3339_parses(s: &str) -> (b: bool)
    ensures
        b == rfc3339_ok(s@),
{
    chrono::DateTime::parse_from_rfc3339(s).is_ok()
}

/// Relies on chrono's `Utc::now` and `DateTime::to_rfc3339` for the
/// generation timestamp; nothing is assumed of the value.
#[verifier::external_body]
fn now_rfc3339() -> (r: String) {
    chrono::Utc::now().to_rfc3339()
}

/// Relies on uuid's `Uuid::new_v4` and its hyphenated `Display` form, which
/// is 36 characters; nothing else is assumed of the value.
#[verifier::external_body]
fn new_document_uuid() -> (r: String)
    ensures
        r@.len() == 36,
{
    uuid::Uuid::new_v4().to_string()
}

/// The affected product of a result: the first name under the first
/// namespace, absent when either list is empty.
pub open spec fn first_product(package: Seq<Seq<Seq<char>>>) -> Option<Seq<char>> {
    if package.len() > 0 && package[0].len() > 0 {
        Option::Some(package[0][0])
    } else {
        Option::None
    }
}

/// The identifying string of a result: the first OSV identifier when the
/// vulnerability is OSV-sourced and has one, the sentinel otherwise.
pub open spec fn resolve_id(v: VulnerabilityValue) -> Seq<char> {
    match v {
        VulnerabilityValue::Osv(ids) => if ids.len() > 0 {
            ids[0]
        } else {
            "NOT_SET"@
        },
        _ => "NOT_SET"@,
    }
}

/// The statement a result yields, with `t` as the action-statement
/// timestamp; `None` when the result has no product or its scan timestamp is
/// not RFC 3339 (the skip cases).
pub open spec fn spec_statement(r: CertResultValue, t: Seq<char>) -> Option<StatementValue> {
    match first_product(r.package) {
        Option::None => Option::None,
        Option::Some(product) => if !rfc3339_ok(r.time_scanned) {
            Option::None
        } else {
            Option::Some(
                StatementValue {
                    vulnerability: Option::Some(resolve_id(r.vulnerability)),
                    vuln_description: Option::None,
                    timestamp: Option::Some(r.time_scanned),
                    products: seq![product],
                    subcomponents: Seq::empty(),
                    status: Status::Affected,
                    status_notes: Option::Some("Vulnerabilities reported by Guac"@),
                    justification: Option::None,
                    impact_statement: Option::None,
                    action_statement: Option::Some(
                        "Review "@ + resolve_id(r.vulnerability)
                            + " for details on the appropriate action"@,
                    ),
                    action_statement_timestamp: Option::Some(t),
                },
            )
        },
    }
}

/// The statements of a result sequence, in input order, skip cases left out.
pub open spec fn spec_statements(rs: Seq<CertResultValue>, t: Seq<char>) -> Seq<StatementValue>
    decreases rs.len(),
{
    if rs.len() == 0 {
        Seq::empty()
    } else {
        match spec_statement(rs[0], t) {
            Option::Some(st) => seq![st] + spec_statements(rs.drop_first(), t),
            Option::None => spec_statements(rs.drop_first(), t),
        }
    }
}

/// The views of a result vector.
pub open spec fn results_view(rs: Seq<CertificationResult>) -> Seq<CertResultValue> {
    rs.map_values(|r: CertificationResult| r@)
}

/// The views of a statement vector.
pub open spec fn statements_view(sts: Seq<Statement>) -> Seq<StatementValue> {
    sts.map_values(|s: Statement| s@)
}

/// Statement assembly distributes over concatenation of result sequences.
pub proof fn lemma_spec_statements_concat(a: Seq<CertResultValue>, b: Seq<CertResultValue>, t: Seq<char>)
    ensures
        spec_statements(a + b, t) == spec_statements(a, t) + spec_statements(b, t),
    decreases a.len(),
{
    if a.len() == 0 {
        assert(a + b =~= b);
        assert(spec_statements(a, t) + spec_statements(b, t) =~= spec_statements(b, t));
    } else {
        assert((a + b)[0] == a[0]);
        assert((a + b).drop_first() =~= a.drop_first() + b);
        lemma_spec_statements_concat(a.drop_first(), b, t);
        match spec_statement(a[0], t) {
            Option::Some(st) => {
                assert(seq![st] + (spec_statements(a.drop_first(), t) + spec_statements(b, t))
                    =~= (seq![st] + spec_statements(a.drop_first(), t)) + spec_statements(b, t));
            },
            Option::None => {},
        }
    }
}

/// Builds the statement for one result: exactly `spec_statement`, with
/// `action_time` as the action-statement timestamp.
pub fn build_statement(res: &CertificationResult, action_time: &String) -> (r: Option<Statement>)
    ensures
        match r {
            Option::Some(st) => spec_statement(res@, action_time@) == Option::Some(st@),
            Option::None => spec_statement(res@, action_time@) is None,
        },
{
    if res.package.namespaces.len() == 0 {
        return Option::None;
    }
    let ns0 = &res.package.namespaces[0];
    if ns0.names.len() == 0 {
        proof {
            assert(res.package@[0].len() == 0);
        }
        return Option::None;
    }
    let product = ns0.names[0].clone();
    proof {
        assert(res.package@[0][0] == product@);
    }
    if !rfc3339_parses(res.time_scanned.as_str()) {
        return Option::None;
    }
    let id: String = match &res.vulnerability {
        ResultVulnerability::Osv { osv_id } => {
            if osv_id.len() > 0 {
                osv_id[0].clone()
            } else {
                String::from_str("NOT_SET")
            }
        },
        _ => String::from_str("NOT_SET"),
    };
    proof {
        assert(id@ == resolve_id(res.vulnerability@));
    }
    let action = String::from_str("Review ").concat(id.as_str()).concat(
        " for details on the appropriate action",
    );
    let mut products: Vec<String> = Vec::new();
    products.push(product);
    let st = Statement {
        vulnerability: Option::Some(id),
        vuln_description: Option::None,
        timestamp: Option::Some(res.time_scanned.clone()),
        products,
        subcomponents: Vec::new(),
        status: Status::Affected,
        status_notes: Option::Some(String::from_str("Vulnerabilities reported by Guac")),
        justification: Option::None,
        impact_statement: Option::None,
        action_statement: Option::Some(action),
        action_statement_timestamp: Option::Some(action_time.clone()),
    };
    proof {
        assert(spec_statement(res@, action_time@)->Some_0 =~~= st@);
    }
    Option::Some(st)
}

/// Builds an empty exchange document around the given document-identifier
/// tail and generation timestamp: every metadata field is exactly as stated.
pub fn openvex_with(doc_id_tail: String, now: String) -> (doc: VexDocument)
    ensures
        doc.metadata.context@ == "https://openvex.dev/ns"@,
        doc.metadata.id@ == "https://seedwing.io/ROOT/generated/"@ + doc_id_tail@,
        doc.metadata.author@ == "Seedwing Policy Engine"@,
        doc.metadata.role@ == "Document Creator"@,
        doc.metadata.timestamp == Option::Some(now),
        doc.metadata.version@ == "1"@,
        ostr_view(doc.metadata.tooling) == Option::Some("Seedwing Policy Engine"@),
        ostr_view(doc.metadata.supplier) == Option::Some("seedwing.io"@),
        doc.statements@ =~= Seq::<Statement>::empty(),
{
    let id = String::from_str("https://seedwing.io/ROOT/generated/").concat(doc_id_tail.as_str());
    VexDocument {
        metadata: DocumentMetadata {
            context: String::from_str("https://openvex.dev/ns"),
            id,
            author: String::from_str("Seedwing Policy Engine"),
            role: String::from_str("Document Creator"),
            timestamp: Option::Some(now),
            version: String::from_str("1"),
            tooling: Option::Some(String::from_str("Seedwing Policy Engine")),
            supplier: Option::Some(String::from_str("seedwing.io")),
        },
        statements: Vec::new(),
    }
}

/// Builds an empty exchange document with a freshly generated identifier and
/// the generation time.
pub fn openvex() -> (doc: VexDocument)
    ensures
        doc.metadata.context@ == "https://openvex.dev/ns"@,
        doc.metadata.id@.len() == "https://seedwing.io/ROOT/generated/"@.len() + 36,
        doc.metadata.id@.take("https://seedwing.io/ROOT/generated/"@.len() as int)
            == "https://seedwing.io/ROOT/generated/"@,
        doc.metadata.author@ == "Seedwing Policy Engine"@,
        doc.metadata.role@ == "Document Creator"@,
        doc.metadata.timestamp is Some,
        doc.metadata.version@ == "1"@,
        ostr_view(doc.metadata.tooling) == Option::Some("Seedwing Policy Engine"@),
        ostr_view(doc.metadata.supplier) == Option::Some("seedwing.io"@),
        doc.statements@ =~= Seq::<Statement>::empty(),
{
    let tail = new_document_uuid();
    let now = now_rfc3339();
    let doc = openvex_with(tail, now);
    proof {
        assert(doc.metadata.id@.take("https://seedwing.io/ROOT/generated/"@.len() as int)
            =~= "https://seedwing.io/ROOT/generated/"@);
    }
    doc
}

/// Assembles the exchange document from the certification results: one
/// statement per well-formed result, in input order, with the document's own
/// generation timestamp as each statement's action timestamp.  The second
/// component counts the skipped results.
pub fn assemble(results: &Vec<CertificationResult>) -> (r: (VexDocument, usize))
    ensures
        r.0.metadata.timestamp is Some,
        statements_view(r.0.statements@) == spec_statements(
            results_view(results@),
            r.0.metadata.timestamp->Some_0@,
        ),
        r.1 + r.0.statements@.len() == results@.len(),
        r.0.metadata.context@ == "https://openvex.dev/ns"@,
        r.0.metadata.id@.len() == "https://seedwing.io/ROOT/generated/"@.len() + 36,
        r.0.metadata.id@.take("https://seedwing.io/ROOT/generated/"@.len() as int)
            == "https://seedwing.io/ROOT/generated/"@,
        r.0.metadata.author@ == "Seedwing Policy Engine"@,
        r.0.metadata.role@ == "Document Creator"@,
        r.0.metadata.version@ == "1"@,
        ostr_view(r.0.metadata.tooling) == Option::Some("Seedwing Policy Engine"@),
        ostr_view(r.0.metadata.supplier) == Option::Some("seedwing.io"@),
{
    let mut doc = openvex();
    let action_time: String = match &doc.metadata.timestamp {
        Option::Some(t) => t.clone(),
        Option::None => String::new(),
    };
    let ghost meta0 = doc.metadata;
    let mut skipped: usize = 0;
    let mut i: usize = 0;
    while i < results.len()
        invariant
            0 <= i <= results@.len(),
            doc.metadata == meta0,
            meta0.timestamp is Some,
            action_time@ == meta0.timestamp->Some_0@,
            statements_view(doc.statements@) == spec_statements(
                results_view(results@.take(i as int)),
                action_time@,
            ),
            skipped + doc.statements@.len() == i,
        decreases results@.len() - i,
    {
        let ghost pre = results_view(results@.take(i as int));
        let ghost one = results_view(seq![results@[i as int]]);
        match build_statement(&results[i], &action_time) {
            Option::Some(st) => {
                let ghost sts0 = doc.statements@;
                doc.statements.push(st);
                proof {
                    assert(statements_view(doc.statements@) =~= statements_view(sts0) + seq![st@]);
                }
            },
            Option::None => {
                skipped = skipped + 1;
            },
        }
        proof {
            lemma_spec_statements_concat(pre, one, action_time@);
            assert(results_view(results@.take(i + 1)) =~= pre + one);
            let r0 = results@[i as int]@;
            assert(one[0] == r0);
            assert(one.drop_first() =~= Seq::<CertResultValue>::empty());
            assert(spec_statements(Seq::<CertResultValue>::empty(), action_time@)
                == Seq::<StatementValue>::empty());
            if spec_statement(r0, action_time@) is Some {
                assert(spec_statements(one, action_time@) =~= seq![
                    spec_statement(r0, action_time@)->Some_0,
                ]);
            } else {
                assert(spec_statements(one, action_time@) =~= Seq::<StatementValue>::empty());
            }
        }
        i = i + 1;
    }
    proof {
        assert(results@.take(i as int) =~= results@);
    }
    (doc, skipped)
}

/// For results that each yield a statement (a product is present and the
/// scan timestamp is RFC 3339), the document holds exactly one statement per
/// result, in input order.
pub proof fn lemma_statement_count(rs: Seq<CertResultValue>, t: Seq<char>)
    requires
        forall|i: int| 0 <= i < rs.len() ==> spec_statement(#[trigger] rs[i], t) is Some,
    ensures
        spec_statements(rs, t).len() == rs.len(),
        forall|i: int|
            0 <= i < rs.len() ==> spec_statements(rs, t)[i] == spec_statement(
                #[trigger] rs[i],
                t,
            )->Some_0,
    decreases rs.len(),
{
    if rs.len() > 0 {
        let tail = rs.drop_first();
        assert(forall|i: int| 0 <= i < tail.len() ==> #[trigger] tail[i] == rs[i + 1]);
        lemma_statement_count(tail, t);
        assert forall|i: int| 0 <= i < rs.len() implies spec_statements(rs, t)[i]
            == spec_statement(#[trigger] rs[i], t)->Some_0 by {
            if i > 0 {
                assert(spec_statements(rs, t)[i] == spec_statements(tail, t)[i - 1]);
                assert(tail[i - 1] == rs[i]);
            }
        }
    }
}

/// A result that is skipped (no product, or an invalid scan timestamp) does
/// not disturb the statements of the results around it.
pub proof fn lemma_skip_isolation(
    a: Seq<CertResultValue>,
    bad: CertResultValue,
    b: Seq<CertResultValue>,
    t: Seq<char>,
)
    requires
        spec_statement(bad, t) is None,
    ensures
        spec_statements(a + seq![bad] + b, t) == spec_statements(a + b, t),
{
    lemma_spec_statements_concat(a + seq![bad], b, t);
    lemma_spec_statements_concat(a, seq![bad], t);
    lemma_spec_statements_concat(a, b, t);
    assert(seq![bad].drop_first() =~= Seq::<CertResultValue>::empty());
    assert(spec_statements(Seq::<CertResultValue>::empty(), t)
        == Seq::<StatementValue>::empty());
    assert(spec_statements(seq![bad], t) =~= Seq::<StatementValue>::empty());
    assert(spec_statements(a, t) + spec_statements(seq![bad], t) =~= spec_statements(a, t));
}

} // verus!
