//! VirusTotal bookkeeping: the reputation cache, which lookups to make, how a
//! reply becomes a verdict, how long to wait between requests, and how the
//! cached verdicts add up for a process.
//!
//! The requests themselves are made by the caller, which asks this client
//! what to fetch, performs the request, and hands the reply back.

use vstd::prelude::*;
use vstd::string::*;
use crate::text::{has_prefix, str_eq, str_starts_with};
use crate::types::{VtIpReputation, VtProcessReport};
use crate::cache::{entry_keys, entry_map, lemma_entry_map_same, TextMap};

verus! {

/// Whether `serde_json` accepts some text as a JSON document.
pub uninterp spec fn json_parses(body: Seq<char>) -> bool;

/// Calls `serde_json::from_str::<serde_json::Value>` and reports whether it
/// succeeded. Claimed: the answer depends on the text alone.
#[verifier::external_body]
fn json_is_document(body: &str) -> (r: bool)
    ensures
        r == json_parses(body@),
{
    serde_json::from_str::<serde_json::Value>(body).is_ok()
}

/// The unsigned integer that `serde_json` finds in the document `body` at
/// the JSON pointer `pointer`; none when the text is no document, nothing is
/// there, or the value is not an unsigned integer.
pub uninterp spec fn json_u64_at(body: Seq<char>, pointer: Seq<char>) -> Option<u64>;

/// Parses `body` with `serde_json::from_str::<Value>` and reads
/// `Value::pointer(pointer)` with `Value::as_u64`. Claimed: the answer depends
/// on the text and the pointer alone.
#[verifier::external_body]
fn json_u64_at_pointer(body: &str, pointer: &str) -> (r: Option<u64>)
    ensures
        r == json_u64_at(body@, pointer@),
{
    match serde_json::from_str::<serde_json::Value>(body) {
        Ok(v) => v.pointer(pointer).and_then(serde_json::Value::as_u64),
        Err(_) => None,
    }
}

/// The string that `serde_json` finds in the document `body` at the JSON
/// pointer `pointer`; none when the text is no document, nothing is there,
/// or the value is not a string.
pub uninterp spec fn json_str_at(body: Seq<char>, pointer: Seq<char>) -> Option<Seq<char>>;

/// Parses `body` with `serde_json::from_str::<Value>` and reads
/// `Value::pointer(pointer)` with `Value::as_str`, copying the string.
/// Claimed: the answer depends on the text and the pointer alone.
#[verifier::external_body]
fn json_str_at_pointer(body: &str, pointer: &str) -> (r: Option<String>)
    ensures
        match r {
            Some(t) => json_str_at(body@, pointer@) == Some(t@),
            None => json_str_at(body@, pointer@) is None,
        },
{
    match serde_json::from_str::<serde_json::Value>(body) {
        Ok(v) => v.pointer(pointer).and_then(serde_json::Value::as_str).map(str::to_string),
        Err(_) => None,
    }
}

// ---------------------------------------------------------------------------
// The cache

/// Verdicts already fetched: file hash -> (positives, total), and IP ->
/// reputation.
pub struct VtCacheData {
    file_cache: TextMap<(u32, u32)>,
    ip_cache: TextMap<VtIpReputation>,
}

impl VtCacheData {
    /// The cached file verdicts.
    pub closed spec fn files(&self) -> Map<Seq<char>, (u32, u32)> {
        self.file_cache.contents()
    }

    /// The cached IP reputations.
    pub closed spec fn ips(&self) -> Map<Seq<char>, VtIpReputation> {
        self.ip_cache.contents()
    }

    /// Both maps are well formed.
    pub closed spec fn wf(&self) -> bool {
        self.file_cache.wf() && self.ip_cache.wf()
    }

    /// An empty cache.
    pub fn new() -> (c: Self)
        ensures
            c.wf(),
            c.files() == Map::<Seq<char>, (u32, u32)>::empty(),
            c.ips() == Map::<Seq<char>, VtIpReputation>::empty(),
    {
        VtCacheData { file_cache: TextMap::new(), ip_cache: TextMap::new() }
    }

    /// The cached verdict for a file hash.
    pub fn file_entry(&self, hash: &str) -> (r: Option<(u32, u32)>)
        requires
            self.wf(),
        ensures
            r == (if self.files().contains_key(hash@) {
                Some(self.files()[hash@])
            } else {
                None
            }),
    {
        match self.file_cache.get(hash) {
            Some(v) => Some(*v),
            None => None,
        }
    }

    /// The cached reputation of an IP.
    pub fn ip_entry(&self, ip: &str) -> (r: Option<VtIpReputation>)
        requires
            self.wf(),
        ensures
            r == (if self.ips().contains_key(ip@) {
                Some(self.ips()[ip@])
            } else {
                None
            }),
    {
        match self.ip_cache.get(ip) {
            Some(rep) => Some(rep.clone()),
            None => None,
        }
    }

    /// Records the verdict for a file hash, replacing an older one.
    pub fn insert_file(&mut self, hash: String, verdict: (u32, u32))
        requires
            old(self).wf(),
        ensures
            final(self).wf(),
            final(self).files() == old(self).files().insert(hash@, verdict),
            final(self).ips() == old(self).ips(),
    {
        self.file_cache.insert(hash, verdict);
    }

    /// Records the reputation of an IP, replacing an older one.
    pub fn insert_ip(&mut self, ip: String, rep: VtIpReputation)
        requires
            old(self).wf(),
        ensures
            final(self).wf(),
            final(self).ips() == old(self).ips().insert(ip@, rep),
            final(self).files() == old(self).files(),
    {
        self.ip_cache.insert(ip, rep);
    }

    /// The cached file verdicts, each hash once.
    pub fn file_entries(&self) -> (r: Vec<(String, (u32, u32))>)
        requires
            self.wf(),
        ensures
            entry_map(r@) == self.files(),
            entry_keys(r@).no_duplicates(),
    {
        let src = self.file_cache.entries();
        let mut out: Vec<(String, (u32, u32))> = Vec::new();
        let mut i: usize = 0;
        while i < src.len()
            invariant
                i <= src@.len(),
                out@.len() == i,
                forall|k: int| 0 <= k < i ==> (#[trigger] out@[k]).0@ == src@[k].0@ && out@[k].1
                    == src@[k].1,
            decreases src@.len() - i,
        {
            let e = &src[i];
            out.push((e.0.clone(), e.1));
            i += 1;
        }
        proof {
            lemma_entry_map_same(out@, src@);
        }
        assert(entry_keys(out@) =~= entry_keys(src@));
        out
    }

    /// The cached IP reputations, each address once.
    pub fn ip_entries(&self) -> (r: Vec<(String, VtIpReputation)>)
        requires
            self.wf(),
        ensures
            entry_map(r@) == self.ips(),
            entry_keys(r@).no_duplicates(),
    {
        let src = self.ip_cache.entries();
        let mut out: Vec<(String, VtIpReputation)> = Vec::new();
        let mut i: usize = 0;
        while i < src.len()
            invariant
                i <= src@.len(),
                out@.len() == i,
                forall|k: int| 0 <= k < i ==> (#[trigger] out@[k]).0@ == src@[k].0@ && out@[k].1
                    == src@[k].1,
            decreases src@.len() - i,
        {
            let e = &src[i];
            out.push((e.0.clone(), e.1.clone()));
            i += 1;
        }
        proof {
            lemma_entry_map_same(out@, src@);
        }
        assert(entry_keys(out@) =~= entry_keys(src@));
        out
    }
}

// ---------------------------------------------------------------------------
// Verdicts from replies

/// The value of an unsigned JSON number field as the client reads it: a
/// missing or non-integer field counts as 0, and the number is cut to 32 bits.
pub open spec fn field_count(v: Option<u64>) -> int {
    match v {
        Some(x) => x as int % 0x1_0000_0000,
        None => 0,
    }
}

/// (positives, total) from the analysis statistics of a file: positives are
/// malicious plus suspicious engines, the total adds harmless and undetected
/// ones; both wrap around at 2^32, as unchecked 32-bit sums do.
pub open spec fn file_verdict_spec(
    malicious: Option<u64>,
    harmless: Option<u64>,
    suspicious: Option<u64>,
    undetected: Option<u64>,
) -> (u32, u32) {
    (
        ((field_count(malicious) + field_count(suspicious)) % 0x1_0000_0000) as u32,
        ((field_count(malicious) + field_count(harmless) + field_count(suspicious) + field_count(
            undetected,
        )) % 0x1_0000_0000) as u32,
    )
}

fn count_of(v: Option<u64>) -> (r: u64)
    ensures
        r == field_count(v),
        r < 0x1_0000_0000,
{
    match v {
        Some(x) => x % 0x1_0000_0000,
        None => 0,
    }
}

/// (positives, total) from the analysis statistics of a file.
pub fn file_verdict(
    malicious: Option<u64>,
    harmless: Option<u64>,
    suspicious: Option<u64>,
    undetected: Option<u64>,
) -> (r: (u32, u32))
    ensures
        r == file_verdict_spec(malicious, harmless, suspicious, undetected),
{
    let m = count_of(malicious);
    let h = count_of(harmless);
    let s = count_of(suspicious);
    let u = count_of(undetected);
    let positives = ((m + s) % 0x1_0000_0000) as u32;
    let total = ((m + h + s + u) % 0x1_0000_0000) as u32;
    (positives, total)
}

/// The reputation of `ip` from its analysis statistics and attributes.
pub fn ip_reputation(
    ip: &str,
    malicious: Option<u64>,
    harmless: Option<u64>,
    country: Option<String>,
    owner: Option<String>,
) -> (r: VtIpReputation)
    ensures
        r.ip@ == ip@,
        r.malicious_votes == field_count(malicious),
        r.harmless_votes == field_count(harmless),
        r.country == country,
        r.owner == owner,
{
    VtIpReputation {
        ip: String::from_str(ip),
        malicious_votes: count_of(malicious) as u32,
        harmless_votes: count_of(harmless) as u32,
        country,
        owner,
    }
}

/// The JSON pointer of a file or address report's statistic `name`.
pub open spec fn stat_pointer(name: Seq<char>) -> Seq<char> {
    "/data/attributes/last_analysis_stats/"@ + name
}

/// The file verdict that a report's text gives.
pub open spec fn reply_file_verdict(body: Seq<char>) -> (u32, u32) {
    file_verdict_spec(
        json_u64_at(body, stat_pointer("malicious"@)),
        json_u64_at(body, stat_pointer("harmless"@)),
        json_u64_at(body, stat_pointer("suspicious"@)),
        json_u64_at(body, stat_pointer("undetected"@)),
    )
}

/// A text read at a pointer, as an owned optional string.
pub open spec fn opt_text_is(r: Option<String>, t: Option<Seq<char>>) -> bool {
    match r {
        Some(x) => t == Some(x@),
        None => t is None,
    }
}

/// The reputation that an address report's text gives.
pub open spec fn reply_ip_reputation(ip: Seq<char>, body: Seq<char>, rep: VtIpReputation) -> bool {
    &&& rep.ip@ == ip
    &&& rep.malicious_votes == field_count(json_u64_at(body, stat_pointer("malicious"@)))
    &&& rep.harmless_votes == field_count(json_u64_at(body, stat_pointer("harmless"@)))
    &&& opt_text_is(rep.country, json_str_at(body, "/data/attributes/country"@))
    &&& opt_text_is(rep.owner, json_str_at(body, "/data/attributes/as_owner"@))
}

fn stat_u64(body: &str, name: &str) -> (r: Option<u64>)
    ensures
        r == json_u64_at(body@, stat_pointer(name@)),
{
    let mut p = String::from_str("/data/attributes/last_analysis_stats/");
    p.append(name);
    json_u64_at_pointer(body, p.as_str())
}

// ---------------------------------------------------------------------------
// The client

/// An IP that is never looked up: loopback, the private 10/8 and
/// 192.168/16 ranges, and the unspecified address.
pub open spec fn skipped_ip(ip: Seq<char>) -> bool {
    has_prefix(ip, "127."@) || has_prefix(ip, "10."@) || has_prefix(ip, "192.168."@) || ip
        == "0.0.0.0"@
}

/// The URL of the file report for a hash.
pub open spec fn file_report_url_spec(sha256: Seq<char>) -> Seq<char> {
    "https://www.virustotal.com/api/v3/files/"@ + sha256
}

/// The URL of the IP address report for an IP.
pub open spec fn ip_report_url_spec(ip: Seq<char>) -> Seq<char> {
    "https://www.virustotal.com/api/v3/ip_addresses/"@ + ip
}

/// The cached verdict for a hash, or none.
pub open spec fn cached_file(files: Map<Seq<char>, (u32, u32)>, h: Seq<char>) -> Option<(u32, u32)> {
    if files.contains_key(h) {
        Some(files[h])
    } else {
        None
    }
}

/// The cached reputation of an IP, or none; skipped IPs have none.
pub open spec fn cached_ip(ips: Map<Seq<char>, VtIpReputation>, ip: Seq<char>) -> Option<VtIpReputation> {
    if !skipped_ip(ip) && ips.contains_key(ip) {
        Some(ips[ip])
    } else {
        None
    }
}

/// Number of hashes whose cached verdict has positives.
pub open spec fn flagged_files(files: Map<Seq<char>, (u32, u32)>, hs: Seq<Seq<char>>) -> nat
    decreases hs.len(),
{
    if hs.len() == 0 {
        0
    } else {
        flagged_files(files, hs.drop_last()) + match cached_file(files, hs.last()) {
            Some(v) => if v.0 > 0 {
                1nat
            } else {
                0nat
            },
            None => 0nat,
        }
    }
}

/// Number of IPs whose cached reputation has malicious votes.
pub open spec fn flagged_ips(ips: Map<Seq<char>, VtIpReputation>, xs: Seq<Seq<char>>) -> nat
    decreases xs.len(),
{
    if xs.len() == 0 {
        0
    } else {
        flagged_ips(ips, xs.drop_last()) + match cached_ip(ips, xs.last()) {
            Some(r) => if r.malicious_votes > 0 {
                1nat
            } else {
                0nat
            },
            None => 0nat,
        }
    }
}

/// Number of file lookups whose verdict has positives.
pub open spec fn positive_verdicts(rs: Seq<Option<(u32, u32)>>) -> nat
    decreases rs.len(),
{
    if rs.len() == 0 {
        0
    } else {
        positive_verdicts(rs.drop_last()) + match rs.last() {
            Some(v) => if v.0 > 0 {
                1nat
            } else {
                0nat
            },
            None => 0nat,
        }
    }
}

/// Number of address lookups whose reputation has malicious votes.
pub open spec fn malicious_reputations(rs: Seq<Option<VtIpReputation>>) -> nat
    decreases rs.len(),
{
    if rs.len() == 0 {
        0
    } else {
        malicious_reputations(rs.drop_last()) + match rs.last() {
            Some(r) => if r.malicious_votes > 0 {
                1nat
            } else {
                0nat
            },
            None => 0nat,
        }
    }
}

/// The VirusTotal figures of a process from the results of its lookups, in
/// the order they were made: the executable's verdict, one result per module
/// hash and one per remote address (none where a lookup gave nothing). The
/// executable's (positives, total) are taken as they are (0/0 without a
/// verdict); modules count when their verdict has positives, addresses when
/// their reputation has malicious votes.
pub fn process_vt_report(
    exe: Option<(u32, u32)>,
    dll_results: &[Option<(u32, u32)>],
    ip_results: &[Option<VtIpReputation>],
) -> (r: VtProcessReport)
    requires
        dll_results@.len() <= u32::MAX,
        ip_results@.len() <= u32::MAX,
    ensures
        r.exe_positives == (match exe {
            Some(v) => v.0,
            None => 0,
        }),
        r.exe_total == (match exe {
            Some(v) => v.1,
            None => 0,
        }),
        r.malicious_dll_count == positive_verdicts(dll_results@),
        r.malicious_ip_count == malicious_reputations(ip_results@),
{
    let (exe_positives, exe_total) = match exe {
        Some(v) => v,
        None => (0, 0),
    };
    let mut malicious_dll_count: u32 = 0;
    let mut i: usize = 0;
    while i < dll_results.len()
        invariant
            i <= dll_results@.len(),
            dll_results@.len() <= u32::MAX,
            malicious_dll_count == positive_verdicts(dll_results@.take(i as int)),
            malicious_dll_count <= i,
        decreases dll_results@.len() - i,
    {
        assert(dll_results@.take(i + 1).drop_last() =~= dll_results@.take(i as int));
        match dll_results[i] {
            Some(v) => if v.0 > 0 {
                malicious_dll_count = malicious_dll_count + 1;
            },
            None => {},
        }
        i += 1;
    }
    assert(dll_results@.take(dll_results@.len() as int) =~= dll_results@);
    let mut malicious_ip_count: u32 = 0;
    let mut j: usize = 0;
    while j < ip_results.len()
        invariant
            j <= ip_results@.len(),
            ip_results@.len() <= u32::MAX,
            malicious_ip_count == malicious_reputations(ip_results@.take(j as int)),
            malicious_ip_count <= j,
        decreases ip_results@.len() - j,
    {
        assert(ip_results@.take(j + 1).drop_last() =~= ip_results@.take(j as int));
        match &ip_results[j] {
            Some(rep) => if rep.malicious_votes > 0 {
                malicious_ip_count = malicious_ip_count + 1;
            },
            None => {},
        }
        j += 1;
    }
    assert(ip_results@.take(ip_results@.len() as int) =~= ip_results@);
    VtProcessReport { exe_positives, exe_total, malicious_dll_count, malicious_ip_count }
}

/// A VirusTotal client: its API key, its pause between requests, and the
/// verdicts it has cached (and where the cache is kept).
pub struct VtClient {
    api_key: String,
    min_interval_secs: u64,
    cache: VtCacheData,
    cache_path: Option<String>,
}

/// Pause between two requests, for the free tier's 4 requests a minute.
pub const MIN_INTERVAL_SECS: u64 = 15;

impl VtClient {
    /// The cached file verdicts.
    pub closed spec fn files(&self) -> Map<Seq<char>, (u32, u32)> {
        self.cache.files()
    }

    /// The cached IP reputations.
    pub closed spec fn ips(&self) -> Map<Seq<char>, VtIpReputation> {
        self.cache.ips()
    }

    /// The API key.
    pub closed spec fn key(&self) -> Seq<char> {
        self.api_key@
    }

    /// Where the cache is kept, if anywhere.
    pub closed spec fn stored_at(&self) -> Option<Seq<char>> {
        match self.cache_path {
            Some(p) => Some(p@),
            None => None,
        }
    }

    /// The client's cache is well formed.
    pub closed spec fn wf(&self) -> bool {
        self.cache.wf() && self.min_interval_secs == MIN_INTERVAL_SECS
    }

    /// A client with the given key, starting from a cache read earlier (kept
    /// at `cache_path`, if any).
    pub fn new(api_key: String, cache_path: Option<String>, cache: VtCacheData) -> (c: Self)
        requires
            cache.wf(),
        ensures
            c.wf(),
            c.key() == api_key@,
            c.files() == cache.files(),
            c.ips() == cache.ips(),
            c.stored_at() == match cache_path {
                Some(p) => Some(p@),
                None => None,
            },
    {
        VtClient { api_key, min_interval_secs: MIN_INTERVAL_SECS, cache, cache_path }
    }

    /// The API key, sent with every request.
    pub fn api_key(&self) -> (r: &str)
        ensures
            r@ == self.key(),
    {
        self.api_key.as_str()
    }

    /// Where the cache is kept, if anywhere.
    pub fn cache_path(&self) -> (r: Option<&str>)
        ensures
            match r {
                Some(p) => self.stored_at() == Some(p@),
                None => self.stored_at() is None,
            },
    {
        match &self.cache_path {
            Some(p) => Some(p.as_str()),
            None => None,
        }
    }

    /// The cache, to be saved.
    pub fn cache(&self) -> (r: &VtCacheData)
        requires
            self.wf(),
        ensures
            r.wf(),
            r.files() == self.files(),
            r.ips() == self.ips(),
    {
        &self.cache
    }

    /// The pause between two requests, in seconds.
    pub fn min_interval_secs(&self) -> (r: u64)
        requires
            self.wf(),
        ensures
            r == MIN_INTERVAL_SECS,
    {
        self.min_interval_secs
    }

    /// The cached verdict for a file hash: (positives, total).
    pub fn cached_file_verdict(&self, sha256: &str) -> (r: Option<(u32, u32)>)
        requires
            self.wf(),
        ensures
            r == cached_file(self.files(), sha256@),
    {
        self.cache.file_entry(sha256)
    }

    /// The URL of the file report for a hash.
    pub fn file_report_url(sha256: &str) -> (r: String)
        ensures
            r@ == file_report_url_spec(sha256@),
    {
        let mut u = String::from_str("https://www.virustotal.com/api/v3/files/");
        u.append(sha256);
        u
    }

    /// Takes the reply to a file report request: when it is a JSON document,
    /// the verdict that [`file_verdict`] makes of its statistics is cached and
    /// returned; otherwise nothing changes.
    pub fn record_file_reply(&mut self, sha256: &str, body: &str) -> (r: Option<(u32, u32)>)
        requires
            old(self).wf(),
        ensures
            final(self).wf(),
            final(self).key() == old(self).key(),
            final(self).stored_at() == old(self).stored_at(),
            final(self).ips() == old(self).ips(),
            r.is_some() == json_parses(body@),
            match r {
                Some(v) => {
                    &&& v == reply_file_verdict(body@)
                    &&& final(self).files() == old(self).files().insert(sha256@, v)
                },
                None => final(self).files() == old(self).files(),
            },
    {
        if json_is_document(body) {
            let m = stat_u64(body, "malicious");
            let h = stat_u64(body, "harmless");
            let s = stat_u64(body, "suspicious");
            let u = stat_u64(body, "undetected");
            let v = file_verdict(m, h, s, u);
            self.cache.insert_file(String::from_str(sha256), v);
            Some(v)
        } else {
            None
        }
    }

    /// Whether an IP is never looked up (local and private addresses).
    pub fn ip_lookup_skipped(ip: &str) -> (r: bool)
        ensures
            r == skipped_ip(ip@),
    {
        str_starts_with(ip, "127.") || str_starts_with(ip, "10.") || str_starts_with(ip, "192.168.")
            || str_eq(ip, "0.0.0.0")
    }

    /// The cached reputation of an IP; none for a skipped IP.
    pub fn cached_ip_reputation(&self, ip: &str) -> (r: Option<VtIpReputation>)
        requires
            self.wf(),
        ensures
            r == cached_ip(self.ips(), ip@),
    {
        if Self::ip_lookup_skipped(ip) {
            None
        } else {
            self.cache.ip_entry(ip)
        }
    }

    /// The URL of the IP address report for an IP.
    pub fn ip_report_url(ip: &str) -> (r: String)
        ensures
            r@ == ip_report_url_spec(ip@),
    {
        let mut u = String::from_str("https://www.virustotal.com/api/v3/ip_addresses/");
        u.append(ip);
        u
    }

    /// Takes the reply to an IP address report request: when it is a JSON
    /// document, the reputation that [`ip_reputation`] makes of its
    /// statistics and attributes is cached and returned; otherwise nothing
    /// changes.
    pub fn record_ip_reply(&mut self, ip: &str, body: &str) -> (r: Option<VtIpReputation>)
        requires
            old(self).wf(),
        ensures
            final(self).wf(),
            final(self).key() == old(self).key(),
            final(self).stored_at() == old(self).stored_at(),
            final(self).files() == old(self).files(),
            r.is_some() == json_parses(body@),
            match r {
                Some(rep) => {
                    &&& reply_ip_reputation(ip@, body@, rep)
                    &&& final(self).ips() == old(self).ips().insert(ip@, rep)
                },
                None => final(self).ips() == old(self).ips(),
            },
    {
        if json_is_document(body) {
            let m = stat_u64(body, "malicious");
            let h = stat_u64(body, "harmless");
            let country = json_str_at_pointer(body, "/data/attributes/country");
            let owner = json_str_at_pointer(body, "/data/attributes/as_owner");
            let rep = ip_reputation(ip, m, h, country, owner);
            self.cache.insert_ip(String::from_str(ip), rep.clone());
            Some(rep)
        } else {
            None
        }
    }

    /// The VirusTotal figures of a process, from the cached verdicts of its
    /// executable, its modules and its remote IPs: the executable's
    /// (positives, total), the number of module hashes with positives and
    /// the number of IPs with malicious votes. Lookups that are not cached
    /// count as clean.
    pub fn analyze_process_vt(
        &self,
        exe_sha256: Option<&str>,
        dll_sha256s: &[String],
        remote_ips: &[String],
    ) -> (r: VtProcessReport)
        requires
            self.wf(),
            dll_sha256s@.len() <= u32::MAX,
            remote_ips@.len() <= u32::MAX,
        ensures
            ({
                let exe = match exe_sha256 {
                    Some(h) => cached_file(self.files(), h@),
                    None => None,
                };
                &&& r.exe_positives == (match exe {
                    Some(v) => v.0,
                    None => 0,
                })
                &&& r.exe_total == (match exe {
                    Some(v) => v.1,
                    None => 0,
                })
                &&& r.malicious_dll_count == flagged_files(
                    self.files(),
                    dll_sha256s@.map_values(|s: String| s@),
                )
                &&& r.malicious_ip_count == flagged_ips(
                    self.ips(),
                    remote_ips@.map_values(|s: String| s@),
                )
            }),
    {
        let mut exe_positives: u32 = 0;
        let mut exe_total: u32 = 0;
        match exe_sha256 {
            Some(hash) => match self.cached_file_verdict(hash) {
                Some((pos, tot)) => {
                    exe_positives = pos;
                    exe_total = tot;
                },
                None => {},
            },
            None => {},
        }
        let ghost hs = dll_sha256s@.map_values(|s: String| s@);
        let mut malicious_dll_count: u32 = 0;
        let mut i: usize = 0;
        while i < dll_sha256s.len()
            invariant
                self.wf(),
                i <= dll_sha256s@.len(),
                dll_sha256s@.len() <= u32::MAX,
                hs == dll_sha256s@.map_values(|s: String| s@),
                malicious_dll_count == flagged_files(self.files(), hs.take(i as int)),
                malicious_dll_count <= i,
            decreases dll_sha256s@.len() - i,
        {
            assert(hs.take(i + 1).drop_last() =~= hs.take(i as int));
            assert(hs.take(i + 1).last() == dll_sha256s@[i as int]@);
            match self.cached_file_verdict(dll_sha256s[i].as_str()) {
                Some((pos, _)) => {
                    if pos > 0 {
                        malicious_dll_count = malicious_dll_count + 1;
                    }
                },
                None => {},
            }
            i += 1;
        }
        assert(hs.take(dll_sha256s@.len() as int) =~= hs);
        let ghost xs = remote_ips@.map_values(|s: String| s@);
        let mut malicious_ip_count: u32 = 0;
        let mut j: usize = 0;
        while j < remote_ips.len()
            invariant
                self.wf(),
                j <= remote_ips@.len(),
                remote_ips@.len() <= u32::MAX,
                xs == remote_ips@.map_values(|s: String| s@),
                malicious_ip_count == flagged_ips(self.ips(), xs.take(j as int)),
                malicious_ip_count <= j,
            decreases remote_ips@.len() - j,
        {
            assert(xs.take(j + 1).drop_last() =~= xs.take(j as int));
            assert(xs.take(j + 1).last() == remote_ips@[j as int]@);
            match self.cached_ip_reputation(remote_ips[j].as_str()) {
                Some(rep) => {
                    if rep.malicious_votes > 0 {
                        malicious_ip_count = malicious_ip_count + 1;
                    }
                },
                None => {},
            }
            j += 1;
        }
        assert(xs.take(remote_ips@.len() as int) =~= xs);
        VtProcessReport { exe_positives, exe_total, malicious_dll_count, malicious_ip_count }
    }
}

/// The wait before the next request: what remains of the pause since the
/// last request (nothing before the first one).
pub open spec fn throttle_wait_spec(since_last: Option<u128>, min_interval: u128) -> int {
    match since_last {
        Some(e) => if e < min_interval {
            min_interval - e
        } else {
            0
        },
        None => 0,
    }
}

/// How long to wait before the next request, given the time since the last
/// one (none before the first request) and the pause between requests.
pub fn throttle_wait(since_last: Option<u128>, min_interval: u128) -> (r: u128)
    ensures
        r == throttle_wait_spec(since_last, min_interval),
{
    match since_last {
        Some(e) => if e < min_interval {
            min_interval - e
        } else {
            0
        },
        None => 0,
    }
}

// ---------------------------------------------------------------------------
// Laws

/// A file verdict reads back as it was recorded, and recording it leaves
/// the verdicts of other hashes as they were.
pub proof fn lemma_file_verdict_read_after_write(
    files: Map<Seq<char>, (u32, u32)>,
    hash: Seq<char>,
    verdict: (u32, u32),
    other: Seq<char>,
)
    ensures
        cached_file(files.insert(hash, verdict), hash) == Some(verdict),
        other != hash ==> cached_file(files.insert(hash, verdict), other) == cached_file(
            files,
            other,
        ),
{
}

/// An IP reputation reads back as it was recorded, unless the IP is one that
/// is never looked up; other IPs are unaffected.
pub proof fn lemma_ip_reputation_read_after_write(
    ips: Map<Seq<char>, VtIpReputation>,
    ip: Seq<char>,
    rep: VtIpReputation,
    other: Seq<char>,
)
    ensures
        !skipped_ip(ip) ==> cached_ip(ips.insert(ip, rep), ip) == Some(rep),
        skipped_ip(ip) ==> cached_ip(ips.insert(ip, rep), ip) is None,
        other != ip ==> cached_ip(ips.insert(ip, rep), other) == cached_ip(ips, other),
{
}

/// After the wait, at least the pause has passed since the last request,
/// and the wait is never longer than the pause.
pub proof fn lemma_throttle_spacing(since_last: u128, min_interval: u128)
    ensures
        since_last + throttle_wait_spec(Some(since_last), min_interval) >= min_interval,
        0 <= throttle_wait_spec(Some(since_last), min_interval) <= min_interval,
        throttle_wait_spec(None, min_interval) == 0,
{
}

} // verus!
