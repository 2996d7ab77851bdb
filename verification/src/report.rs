//! Text of the reports: CSV fields and rows, the risk tally of a listing,
//! and the short labels that the printed reports show.

use vstd::prelude::*;
use vstd::string::*;
use vstd::utf8::*;
use crate::text::{chars_of, decimal, has_prefix, joined, join_strings, push_char, push_decimal, str_eq, str_starts_with, views};
use crate::types::{AnalysisReport, LiveProcessReport, NetworkConnection, VtProcessReport};
use crate::live::{file_name_of, module_name, path_file_name};
use crate::risk::risk_level_text;

verus! {

// ---------------------------------------------------------------------------
// CSV fields

/// A field must be quoted when it holds a comma, a double quote or a newline.
pub open spec fn needs_quotes(s: Seq<char>) -> bool {
    s.contains(',') || s.contains('"') || s.contains('\n')
}

/// One character of a quoted field: a double quote is written twice.
pub open spec fn quote_doubled(c: char) -> Seq<char> {
    if c == '"' {
        seq!['"', '"']
    } else {
        seq![c]
    }
}

/// `s` with every double quote written twice.
pub open spec fn doubled_quotes(s: Seq<char>) -> Seq<char>
    decreases s.len(),
{
    if s.len() == 0 {
        Seq::empty()
    } else {
        quote_doubled(s[0]) + doubled_quotes(s.drop_first())
    }
}

/// How a value is written as a CSV field: unchanged when it needs no quotes,
/// otherwise between double quotes with its own quotes doubled.
pub open spec fn csv_field_text(s: Seq<char>) -> Seq<char> {
    if needs_quotes(s) {
        seq!['"'] + doubled_quotes(s) + seq!['"']
    } else {
        s
    }
}

/// Reads the inside of a quoted field: each pair of double quotes becomes one.
pub open spec fn undoubled_quotes(t: Seq<char>) -> Seq<char>
    decreases t.len(),
{
    if t.len() == 0 {
        Seq::empty()
    } else if t.len() >= 2 && t[0] == '"' && t[1] == '"' {
        seq!['"'] + undoubled_quotes(t.skip(2))
    } else {
        seq![t[0]] + undoubled_quotes(t.skip(1))
    }
}

proof fn lemma_doubled_quotes_append(a: Seq<char>, b: Seq<char>)
    ensures
        doubled_quotes(a + b) == doubled_quotes(a) + doubled_quotes(b),
    decreases a.len(),
{
    if a.len() == 0 {
        assert(a + b =~= b);
        assert(doubled_quotes(a) =~= Seq::<char>::empty());
        assert(doubled_quotes(a) + doubled_quotes(b) =~= doubled_quotes(b));
    } else {
        assert((a + b).drop_first() =~= a.drop_first() + b);
        lemma_doubled_quotes_append(a.drop_first(), b);
        assert(doubled_quotes(a + b) =~= doubled_quotes(a) + doubled_quotes(b));
    }
}

proof fn lemma_doubled_quotes_single(c: char)
    ensures
        doubled_quotes(seq![c]) == quote_doubled(c),
{
    let e = seq![c].drop_first();
    assert(e =~= Seq::<char>::empty());
    assert(doubled_quotes(e) =~= Seq::<char>::empty());
    assert(seq![c][0] == c);
    assert(doubled_quotes(seq![c]) =~= quote_doubled(c) + doubled_quotes(e));
    assert(quote_doubled(c) + doubled_quotes(e) =~= quote_doubled(c));
}

/// Reading back the inside of a quoted field, each doubled quote becoming one,
/// gives back the text that was written.
pub proof fn lemma_csv_quoting_round_trip(s: Seq<char>)
    ensures
        undoubled_quotes(doubled_quotes(s)) == s,
    decreases s.len(),
{
    if s.len() > 0 {
        let rest = s.drop_first();
        lemma_csv_quoting_round_trip(rest);
        let t = doubled_quotes(s);
        if s[0] == '"' {
            assert(t.skip(2) =~= doubled_quotes(rest));
        } else {
            assert(t.skip(1) =~= doubled_quotes(rest));
        }
        assert(undoubled_quotes(t) =~= s);
    } else {
        assert(undoubled_quotes(doubled_quotes(s)) =~= s);
    }
}

/// A CSV field is left as it is exactly when it holds no comma, quote or
/// newline; otherwise it is enclosed in quotes whose inside reads back as the
/// text that was written.
pub proof fn lemma_csv_field_reads_back(s: Seq<char>)
    ensures
        !needs_quotes(s) ==> csv_field_text(s) == s,
        needs_quotes(s) ==> ({
            let f = csv_field_text(s);
            &&& f.len() >= 2
            &&& f[0] == '"'
            &&& f[f.len() - 1] == '"'
            &&& undoubled_quotes(f.subrange(1, f.len() - 1)) == s
        }),
{
    if needs_quotes(s) {
        let f = csv_field_text(s);
        assert(f.subrange(1, f.len() - 1) =~= doubled_quotes(s));
        lemma_csv_quoting_round_trip(s);
    }
}

/// Whether `v` holds the character `c`.
fn holds_char(v: &Vec<char>, c: char) -> (r: bool)
    ensures
        r == v@.contains(c),
{
    let mut i: usize = 0;
    while i < v.len()
        invariant
            i <= v@.len(),
            forall|k: int| 0 <= k < i ==> v@[k] != c,
        decreases v@.len() - i,
    {
        if v[i] == c {
            assert(v@[i as int] == c);
            return true;
        }
        i += 1;
    }
    false
}

/// Writes a value as a CSV field (see [`csv_field_text`]).
pub fn csv_field(s: &str) -> (r: String)
    ensures
        r@ == csv_field_text(s@),
{
    let v = chars_of(s);
    let quoted = holds_char(&v, ',') || holds_char(&v, '"') || holds_char(&v, '\n');
    if !quoted {
        return String::from_str(s);
    }
    let mut out = String::new();
    push_char(&mut out, '"');
    let mut i: usize = 0;
    while i < v.len()
        invariant
            i <= v@.len(),
            v@ == s@,
            out@ == seq!['"'] + doubled_quotes(v@.take(i as int)),
        decreases v@.len() - i,
    {
        let c = v[i];
        proof {
            assert(v@.take(i + 1) =~= v@.take(i as int) + seq![c]);
            lemma_doubled_quotes_append(v@.take(i as int), seq![c]);
            lemma_doubled_quotes_single(c);
        }
        if c == '"' {
            push_char(&mut out, '"');
            push_char(&mut out, '"');
        } else {
            push_char(&mut out, c);
        }
        assert(out@ =~= seq!['"'] + doubled_quotes(v@.take(i + 1)));
        i += 1;
    }
    push_char(&mut out, '"');
    assert(v@.take(v@.len() as int) =~= v@);
    assert(out@ =~= csv_field_text(s@));
    out
}

/// Appends `s` to `out` as a CSV field.
fn push_field(out: &mut String, s: &str)
    ensures
        final(out)@ == old(out)@ + csv_field_text(s@),
{
    let f = csv_field(s);
    out.append(f.as_str());
}

// ---------------------------------------------------------------------------
// Labels shared by the printed reports and the CSV files

/// What the reports say of an executable's resources.
pub open spec fn resources_text(has_resources: bool, resource_size: Option<u32>) -> Seq<char> {
    if has_resources {
        match resource_size {
            Some(sz) => "Yes ("@ + decimal(sz as nat) + " bytes)"@,
            None => "Yes"@,
        }
    } else {
        "No"@
    }
}

/// Describes an executable's resources: `Yes (N bytes)`, `Yes` or `No`.
pub fn resources_label(has_resources: bool, resource_size: Option<u32>) -> (r: String)
    ensures
        r@ == resources_text(has_resources, resource_size),
{
    if has_resources {
        match resource_size {
            Some(sz) => {
                let mut out = String::from_str("Yes (");
                push_decimal(&mut out, sz as u64);
                out.append(" bytes)");
                out
            },
            None => String::from_str("Yes"),
        }
    } else {
        String::from_str("No")
    }
}

/// What the static report says of an executable's signature.
pub open spec fn signature_text(is_signed: bool, publisher: Option<String>) -> Seq<char> {
    if is_signed {
        match publisher {
            Some(p) => p@,
            None => "Valid"@,
        }
    } else {
        "Un-signed"@
    }
}

/// The publisher of a signed executable (`Valid` when none was recovered), or
/// `Un-signed`.
pub fn signature_label(is_signed: bool, publisher: &Option<String>) -> (r: String)
    ensures
        r@ == signature_text(is_signed, *publisher),
{
    if is_signed {
        match publisher {
            Some(p) => p.clone(),
            None => String::from_str("Valid"),
        }
    } else {
        String::from_str("Un-signed")
    }
}

/// An optional text, or `-` when it is absent.
pub open spec fn text_or_dash(s: Option<String>) -> Seq<char> {
    match s {
        Some(x) => x@,
        None => "-"@,
    }
}

fn label_or_dash(s: &Option<String>) -> (r: String)
    ensures
        r@ == text_or_dash(*s),
{
    match s {
        Some(x) => x.clone(),
        None => String::from_str("-"),
    }
}

/// `positives/total` of a VirusTotal report.
pub open spec fn vt_fraction(vt: VtProcessReport) -> Seq<char> {
    decimal(vt.exe_positives as nat) + "/"@ + decimal(vt.exe_total as nat)
}

/// The VirusTotal column of the CSV file and of the dashboard: the fraction
/// when there is a report, `-` otherwise.
pub open spec fn vt_hits_text(vt: Option<VtProcessReport>) -> Seq<char> {
    match vt {
        Some(v) => vt_fraction(v),
        None => "-"@,
    }
}

/// The VirusTotal column of the printed listing: the fraction only when some
/// engine scanned the executable.
pub open spec fn listed_vt_hits_text(vt: Option<VtProcessReport>) -> Seq<char> {
    match vt {
        Some(v) => if v.exe_total > 0 {
            vt_fraction(v)
        } else {
            "-"@
        },
        None => "-"@,
    }
}

fn fraction_label(vt: &VtProcessReport) -> (r: String)
    ensures
        r@ == vt_fraction(*vt),
{
    let mut out = String::new();
    push_decimal(&mut out, vt.exe_positives as u64);
    out.append("/");
    push_decimal(&mut out, vt.exe_total as u64);
    assert(out@ =~= vt_fraction(*vt));
    out
}

/// The VirusTotal column of the CSV file and of the dashboard.
pub fn vt_hits_label(vt: &Option<VtProcessReport>) -> (r: String)
    ensures
        r@ == vt_hits_text(*vt),
{
    match vt {
        Some(v) => fraction_label(v),
        None => String::from_str("-"),
    }
}

/// The VirusTotal column of the printed listing.
pub fn listed_vt_hits_label(vt: &Option<VtProcessReport>) -> (r: String)
    ensures
        r@ == listed_vt_hits_text(*vt),
{
    match vt {
        Some(v) => if v.exe_total > 0 {
            fraction_label(v)
        } else {
            String::from_str("-")
        },
        None => String::from_str("-"),
    }
}

/// How many suspicious imports the static report lists.
pub const SHOWN_SUSPICIOUS_IMPORTS: usize = 10;

/// How many recovered dependencies the static report lists.
pub const SHOWN_DEPENDENCIES: usize = 8;

/// How many indicators the static report lists.
pub const SHOWN_STATIC_INDICATORS: usize = 10;

/// How many indicators the live listing shows under a process.
pub const SHOWN_LIVE_INDICATORS: usize = 3;

// ---------------------------------------------------------------------------
// Risk classes

/// The three bands a report's risk level falls in.
#[derive(PartialEq, Eq, Structural, Clone, Copy, Debug)]
pub enum RiskClass {
    High,
    Review,
    Low,
}

/// The band of a risk level: anything but the two raised levels counts as low.
pub open spec fn risk_class_of(level: Seq<char>) -> RiskClass {
    if level == "HIGH RISK"@ {
        RiskClass::High
    } else if level == "NEEDS REVIEW"@ {
        RiskClass::Review
    } else {
        RiskClass::Low
    }
}

/// The band of a risk level.
pub fn risk_class(level: &str) -> (c: RiskClass)
    ensures
        c == risk_class_of(level@),
{
    if str_eq(level, "HIGH RISK") {
        RiskClass::High
    } else if str_eq(level, "NEEDS REVIEW") {
        RiskClass::Review
    } else {
        RiskClass::Low
    }
}

/// The band shown for a scored report agrees with its score: high from 75,
/// review from 45, low below.
pub proof fn lemma_risk_class_of_score(score: int)
    ensures
        risk_class_of(risk_level_text(score)) == (if score >= 75 {
            RiskClass::High
        } else if score >= 45 {
            RiskClass::Review
        } else {
            RiskClass::Low
        }),
{
    reveal_strlit("HIGH RISK");
    reveal_strlit("NEEDS REVIEW");
    reveal_strlit("LOW");
    if score < 45 {
        assert("LOW"@.len() != "HIGH RISK"@.len());
        assert("LOW"@.len() != "NEEDS REVIEW"@.len());
    } else if score < 75 {
        assert("NEEDS REVIEW"@.len() != "HIGH RISK"@.len());
    }
}

/// How many reports of `rs` fall in band `c`.
pub open spec fn count_class(rs: Seq<LiveProcessReport>, c: RiskClass) -> nat
    decreases rs.len(),
{
    if rs.len() == 0 {
        0
    } else {
        count_class(rs.drop_last(), c) + if risk_class_of(rs.last().risk_level@) == c {
            1nat
        } else {
            0nat
        }
    }
}

/// The number of reports in each band.
pub struct RiskTally {
    pub high: usize,
    pub review: usize,
    pub low: usize,
}

/// Counts the reports of a listing by band.
pub fn tally_risk_levels(reports: &[LiveProcessReport]) -> (t: RiskTally)
    ensures
        t.high == count_class(reports@, RiskClass::High),
        t.review == count_class(reports@, RiskClass::Review),
        t.low == count_class(reports@, RiskClass::Low),
{
    let mut t = RiskTally { high: 0, review: 0, low: 0 };
    let mut i: usize = 0;
    while i < reports.len()
        invariant
            i <= reports@.len(),
            t.high == count_class(reports@.take(i as int), RiskClass::High),
            t.review == count_class(reports@.take(i as int), RiskClass::Review),
            t.low == count_class(reports@.take(i as int), RiskClass::Low),
            t.high + t.review + t.low == i,
        decreases reports@.len() - i,
    {
        proof {
            assert(reports@.take(i + 1).drop_last() =~= reports@.take(i as int));
        }
        match risk_class(reports[i].risk_level.as_str()) {
            RiskClass::High => t.high = t.high + 1,
            RiskClass::Review => t.review = t.review + 1,
            RiskClass::Low => t.low = t.low + 1,
        }
        i += 1;
    }
    assert(reports@.take(reports@.len() as int) =~= reports@);
    t
}

/// Every report of a listing falls in exactly one band: the three counts add
/// up to the number of reports.
pub proof fn lemma_tally_covers_all(rs: Seq<LiveProcessReport>)
    ensures
        count_class(rs, RiskClass::High) + count_class(rs, RiskClass::Review) + count_class(
            rs,
            RiskClass::Low,
        ) == rs.len(),
    decreases rs.len(),
{
    if rs.len() > 0 {
        lemma_tally_covers_all(rs.drop_last());
    }
}

// ---------------------------------------------------------------------------
// The printed live listing

/// Number of UTF-8 bytes of a text.
pub open spec fn utf8_len(s: Seq<char>) -> nat {
    encode_utf8(s).len()
}

/// The characters of the first `n` UTF-8 bytes of a text.
pub open spec fn utf8_prefix(s: Seq<char>, n: int) -> Seq<char> {
    decode_utf8(encode_utf8(s).subrange(0, n))
}

/// The name column of the printed listing: names longer than 22 bytes are cut
/// to their first 19 bytes and marked with `...`.
pub open spec fn short_name_text(name: Seq<char>) -> Seq<char> {
    if utf8_len(name) > 22 {
        utf8_prefix(name, 19) + "..."@
    } else {
        name
    }
}

/// Shortens a process name for the printed listing. A long name must not
/// have a character that straddles its 19th byte.
pub fn short_process_name(name: &str) -> (r: String)
    requires
        utf8_len(name@) <= usize::MAX,
        utf8_len(name@) > 22 ==> is_char_boundary(encode_utf8(name@), 19),
    ensures
        r@ == short_name_text(name@),
{
    if name.len() > 22 {
        let (head, _tail) = name.split_at(19);
        assert(head@ == utf8_prefix(name@, 19)) by {
            broadcast use encode_utf8_decode_utf8;

            assert(encode_utf8(head@) == encode_utf8(name@).subrange(0, 19));
            assert(decode_utf8(encode_utf8(head@)) == head@);
        }
        let mut out = String::from_str(head);
        out.append("...");
        out
    } else {
        String::from_str(name)
    }
}

/// A socket is listed under its process unless it has no remote address or
/// talks to the loopback network.
pub open spec fn listed_connection(c: NetworkConnection) -> bool {
    c.remote_ip@ != "-"@ && !has_prefix(c.remote_ip@, "127."@)
}

/// Whether a socket is listed under its process.
pub fn is_listed_connection(c: &NetworkConnection) -> (r: bool)
    ensures
        r == listed_connection(*c),
{
    !str_eq(c.remote_ip.as_str(), "-") && !str_starts_with(c.remote_ip.as_str(), "127.")
}

/// The text of a listed socket: `local -> ip:port`.
pub open spec fn connection_line_text(c: NetworkConnection) -> Seq<char> {
    c.local_addr@ + " -> "@ + c.remote_ip@ + ":"@ + decimal(c.remote_port as nat)
}

/// Describes a listed socket.
pub fn connection_line(c: &NetworkConnection) -> (r: String)
    ensures
        r@ == connection_line_text(*c),
{
    let mut out = c.local_addr.clone();
    out.append(" -> ");
    out.append(c.remote_ip.as_str());
    out.append(":");
    push_decimal(&mut out, c.remote_port as u64);
    assert(out@ =~= connection_line_text(*c));
    out
}

/// The malicious votes that VirusTotal gave a socket's remote address, when
/// there are any.
pub open spec fn flagged_votes_of(c: NetworkConnection) -> Option<u32> {
    match c.vt_reputation {
        Some(rep) => if rep.malicious_votes > 0 {
            Some(rep.malicious_votes)
        } else {
            None
        },
        None => None,
    }
}

/// The malicious votes of a socket's remote address, when there are any.
pub fn flagged_votes(c: &NetworkConnection) -> (r: Option<u32>)
    ensures
        r == flagged_votes_of(*c),
{
    match &c.vt_reputation {
        Some(rep) => if rep.malicious_votes > 0 {
            Some(rep.malicious_votes)
        } else {
            None
        },
        None => None,
    }
}

// ---------------------------------------------------------------------------
// CSV files

/// Rows, each followed by a newline.
pub open spec fn lines_text(rows: Seq<Seq<char>>) -> Seq<char>
    decreases rows.len(),
{
    if rows.len() == 0 {
        Seq::empty()
    } else {
        lines_text(rows.drop_last()) + rows.last() + seq!['\n']
    }
}

/// The header line of the static CSV file.
pub open spec fn static_csv_header_text() -> Seq<char> {
    "file,size,sha256,format,architecture,risk_score,risk_level,is_rust,packer,resources,entropy,sections"@
}

/// The header line of the live CSV file.
pub open spec fn live_csv_header_text() -> Seq<char> {
    "pid,name,exe_path,risk_score,risk_level,network_connections,loaded_dlls,vt_exe_hits,indicators"@
}

/// `YES` or `NO`.
pub open spec fn yes_no(b: bool) -> Seq<char> {
    if b {
        "YES"@
    } else {
        "NO"@
    }
}

/// The first six columns of a static CSV row.
pub open spec fn static_row_head(r: AnalysisReport) -> Seq<char> {
    csv_field_text(module_name(r.file@)) + ","@ + decimal(r.file_size as nat) + ","@ + r.sha256@
        + ","@ + r.format@ + ","@ + text_or_dash(r.architecture) + ","@ + decimal(
        r.risk_score as nat,
    )
}

/// The remaining columns of a static CSV row, after the risk score.
pub open spec fn static_row_tail(r: AnalysisReport, entropy: Seq<char>) -> Seq<char> {
    ","@ + r.risk_level@ + ","@ + yes_no(r.is_rust) + ","@ + csv_field_text(
        text_or_dash(r.packer_hint),
    ) + ","@ + csv_field_text(resources_text(r.has_resources, r.resource_size)) + ","@ + entropy
        + ","@ + decimal(r.section_count as nat)
}

/// One row of the static CSV file; `entropy` is the file entropy as it is
/// written (two decimals).
pub open spec fn static_row_text(r: AnalysisReport, entropy: Seq<char>) -> Seq<char> {
    static_row_head(r) + static_row_tail(r, entropy)
}

/// The whole static CSV file.
pub open spec fn static_csv_text(reports: Seq<AnalysisReport>, entropies: Seq<Seq<char>>) -> Seq<
    char,
> {
    static_csv_header_text() + seq!['\n'] + lines_text(
        Seq::new(reports.len(), |i: int| static_row_text(reports[i], entropies[i])),
    )
}

fn static_row_head_of(r: &AnalysisReport) -> (out: String)
    ensures
        out@ == static_row_head(*r),
{
    let name = match file_name_of(r.file.as_str()) {
        Some(n) => n,
        None => r.file.clone(),
    };
    assert(name@ == module_name(r.file@));
    let mut out = String::new();
    push_field(&mut out, name.as_str());
    out.append(",");
    push_decimal(&mut out, r.file_size);
    out.append(",");
    out.append(r.sha256.as_str());
    out.append(",");
    out.append(r.format.as_str());
    out.append(",");
    let arch = label_or_dash(&r.architecture);
    out.append(arch.as_str());
    out.append(",");
    push_decimal(&mut out, r.risk_score as u64);
    assert(out@ =~= static_row_head(*r));
    out
}

fn static_row_tail_of(r: &AnalysisReport, entropy: &str) -> (out: String)
    ensures
        out@ == static_row_tail(*r, entropy@),
{
    let mut out = String::from_str(",");
    out.append(r.risk_level.as_str());
    out.append(",");
    if r.is_rust {
        out.append("YES");
    } else {
        out.append("NO");
    }
    out.append(",");
    let packer = label_or_dash(&r.packer_hint);
    push_field(&mut out, packer.as_str());
    out.append(",");
    let res = resources_label(r.has_resources, r.resource_size);
    push_field(&mut out, res.as_str());
    out.append(",");
    out.append(entropy);
    out.append(",");
    push_decimal(&mut out, r.section_count as u64);
    assert(out@ =~= static_row_tail(*r, entropy@));
    out
}

/// One row of the static CSV file.
pub fn static_csv_row(r: &AnalysisReport, entropy: &str) -> (row: String)
    ensures
        row@ == static_row_text(*r, entropy@),
{
    let mut out = static_row_head_of(r);
    let tail = static_row_tail_of(r, entropy);
    out.append(tail.as_str());
    out
}

/// The static CSV file for `reports`; `entropies[i]` is the file entropy of
/// `reports[i]` as it is written.
pub fn static_csv(reports: &[AnalysisReport], entropies: &[String]) -> (text: String)
    requires
        entropies@.len() == reports@.len(),
    ensures
        text@ == static_csv_text(reports@, views(entropies@)),
{
    let ghost rows = Seq::new(
        reports@.len(),
        |i: int| static_row_text(reports@[i], views(entropies@)[i]),
    );
    let mut out = String::from_str(
        "file,size,sha256,format,architecture,risk_score,risk_level,is_rust,packer,resources,entropy,sections",
    );
    push_char(&mut out, '\n');
    let ghost head = out@;
    let mut i: usize = 0;
    while i < reports.len()
        invariant
            i <= reports@.len(),
            entropies@.len() == reports@.len(),
            rows == Seq::new(
                reports@.len(),
                |k: int| static_row_text(reports@[k], views(entropies@)[k]),
            ),
            head == static_csv_header_text() + seq!['\n'],
            out@ == head + lines_text(rows.take(i as int)),
        decreases reports@.len() - i,
    {
        let row = static_csv_row(&reports[i], entropies[i].as_str());
        assert(views(entropies@)[i as int] == entropies@[i as int]@);
        assert(rows.take(i + 1).drop_last() =~= rows.take(i as int));
        out.append(row.as_str());
        push_char(&mut out, '\n');
        assert(out@ =~= head + lines_text(rows.take(i + 1)));
        i += 1;
    }
    assert(rows.take(reports@.len() as int) =~= rows);
    out
}

/// One row of the live CSV file.
pub open spec fn live_row_text(r: LiveProcessReport) -> Seq<char> {
    decimal(r.pid as nat) + ","@ + csv_field_text(r.name@) + ","@ + csv_field_text(
        text_or_dash(r.exe_path),
    ) + ","@ + decimal(r.risk_score as nat) + ","@ + r.risk_level@ + ","@ + decimal(
        r.network_connections@.len(),
    ) + ","@ + decimal(r.loaded_dlls@.len()) + ","@ + vt_hits_text(r.vt_report) + ","@
        + csv_field_text(joined(views(r.indicators@), " | "@))
}

/// The whole live CSV file.
pub open spec fn live_csv_text(reports: Seq<LiveProcessReport>) -> Seq<char> {
    live_csv_header_text() + seq!['\n'] + lines_text(
        Seq::new(reports.len(), |i: int| live_row_text(reports[i])),
    )
}

/// One row of the live CSV file.
pub fn live_csv_row(r: &LiveProcessReport) -> (row: String)
    ensures
        row@ == live_row_text(*r),
{
    let mut out = String::new();
    push_decimal(&mut out, r.pid as u64);
    out.append(",");
    push_field(&mut out, r.name.as_str());
    out.append(",");
    let exe = label_or_dash(&r.exe_path);
    push_field(&mut out, exe.as_str());
    out.append(",");
    push_decimal(&mut out, r.risk_score as u64);
    out.append(",");
    out.append(r.risk_level.as_str());
    out.append(",");
    push_decimal(&mut out, r.network_connections.len() as u64);
    out.append(",");
    push_decimal(&mut out, r.loaded_dlls.len() as u64);
    out.append(",");
    let vt = vt_hits_label(&r.vt_report);
    out.append(vt.as_str());
    out.append(",");
    let inds = join_strings(r.indicators.as_slice(), " | ");
    push_field(&mut out, inds.as_str());
    assert(out@ =~= live_row_text(*r));
    out
}

/// The live CSV file for `reports`.
pub fn live_csv(reports: &[LiveProcessReport]) -> (text: String)
    ensures
        text@ == live_csv_text(reports@),
{
    let ghost rows = Seq::new(reports@.len(), |i: int| live_row_text(reports@[i]));
    let mut out = String::from_str(
        "pid,name,exe_path,risk_score,risk_level,network_connections,loaded_dlls,vt_exe_hits,indicators",
    );
    push_char(&mut out, '\n');
    let ghost head = out@;
    let mut i: usize = 0;
    while i < reports.len()
        invariant
            i <= reports@.len(),
            rows == Seq::new(reports@.len(), |k: int| live_row_text(reports@[k])),
            head == live_csv_header_text() + seq!['\n'],
            out@ == head + lines_text(rows.take(i as int)),
        decreases reports@.len() - i,
    {
        let row = live_csv_row(&reports[i]);
        assert(rows.take(i + 1).drop_last() =~= rows.take(i as int));
        out.append(row.as_str());
        push_char(&mut out, '\n');
        assert(out@ =~= head + lines_text(rows.take(i + 1)));
        i += 1;
    }
    assert(rows.take(reports@.len() as int) =~= rows);
    out
}

/// The is_rust column of a static CSV row: a report without the flag reads
/// `NO` right after its risk level, one with it reads `YES` there, and two
/// reports that differ only in the flag give different rows (the `YES` row is
/// one character longer).
pub proof fn lemma_static_row_is_rust_column(r: AnalysisReport, entropy: Seq<char>)
    ensures
        ({
            let no = AnalysisReport { is_rust: false, ..r };
            let yes = AnalysisReport { is_rust: true, ..r };
            let at = static_row_head(r).len() as int;
            let col_no = ","@ + r.risk_level@ + ",NO,"@;
            let col_yes = ","@ + r.risk_level@ + ",YES,"@;
            &&& static_row_text(yes, entropy).len() == static_row_text(no, entropy).len() + 1
            &&& static_row_text(yes, entropy) != static_row_text(no, entropy)
            &&& static_row_text(no, entropy).subrange(at, at + col_no.len()) == col_no
            &&& static_row_text(yes, entropy).subrange(at, at + col_yes.len()) == col_yes
        }),
{
    reveal_strlit("YES");
    reveal_strlit("NO");
    reveal_strlit(",NO,");
    reveal_strlit(",YES,");
    reveal_strlit(",");
    let no = AnalysisReport { is_rust: false, ..r };
    let yes = AnalysisReport { is_rust: true, ..r };
    let at = static_row_head(r).len() as int;
    assert(static_row_head(no) == static_row_head(r));
    assert(static_row_head(yes) == static_row_head(r));
    let col_no = ","@ + r.risk_level@ + ",NO,"@;
    let col_yes = ","@ + r.risk_level@ + ",YES,"@;
    let rest = csv_field_text(text_or_dash(r.packer_hint)) + ","@ + csv_field_text(
        resources_text(r.has_resources, r.resource_size),
    ) + ","@ + entropy + ","@ + decimal(r.section_count as nat);
    assert(static_row_tail(no, entropy) =~= col_no + rest);
    assert(static_row_tail(yes, entropy) =~= col_yes + rest);
    assert(static_row_text(no, entropy) =~= static_row_head(r) + col_no + rest);
    assert(static_row_text(yes, entropy) =~= static_row_head(r) + col_yes + rest);
    assert(static_row_text(no, entropy).subrange(at, at + col_no.len()) =~= col_no);
    assert(static_row_text(yes, entropy).subrange(at, at + col_yes.len()) =~= col_yes);
}

} // verus!
