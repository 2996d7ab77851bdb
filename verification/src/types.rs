//! The records that the scanner, the scorer and the dashboard pass around.
//!
//! Floating-point values (entropies) are held as the bit patterns of their
//! `f64` (`f64::to_bits`), so that the records stay plain integer data.

use vstd::prelude::*;

verus! {

/// A static analysis report for one executable.
pub struct AnalysisReport {
    pub file: String,
    pub file_size: u64,
    pub sha256: String,
    pub format: String,
    pub architecture: Option<String>,
    pub is_rust: bool,
    pub rustc_version: Option<String>,
    pub rustc_commit_hash: Option<String>,
    pub dependencies: Vec<CrateInfo>,
    pub risk_score: u32,
    pub risk_level: String,
    pub indicators: Vec<String>,
    pub notes: Vec<String>,
    /// Bit pattern of the file's byte entropy (`f64::to_bits`).
    pub file_entropy_bits: u64,
    pub section_count: usize,
    pub compile_timestamp: Option<String>,
    pub entry_point: Option<String>,
    pub packer_hint: Option<String>,
    pub overlay_size: Option<usize>,
    pub suspicious_imports: Vec<String>,
    pub sections: Vec<SectionInfo>,
    pub iocs: Vec<String>,
    pub has_resources: bool,
    pub resource_size: Option<u32>,
    pub is_signed: bool,
    pub signature_publisher: Option<String>,
}

/// One section of an executable.
pub struct SectionInfo {
    pub name: String,
    pub size: usize,
    /// Bit pattern of the section's byte entropy (`f64::to_bits`).
    pub entropy_bits: u64,
    pub characteristics: String,
    pub suspicious: bool,
}

/// A crate dependency recovered from a binary.
pub struct CrateInfo {
    pub name: String,
    pub version: Option<String>,
}

/// A shared library or DLL mapped into a process.
pub struct LoadedModule {
    pub name: String,
    pub path: String,
    pub sha256: Option<String>,
    pub is_suspicious_location: bool,
    pub is_signed: bool,
    pub signature_publisher: Option<String>,
    pub is_unsigned_in_system_dir: bool,
    pub vt_malicious_hits: Option<u32>,
}

/// A socket owned by a process.
pub struct NetworkConnection {
    pub local_addr: String,
    pub remote_addr: String,
    pub remote_ip: String,
    pub remote_port: u16,
    pub remote_hostname: Option<String>,
    pub protocol: String,
    pub state: String,
    pub vt_reputation: Option<VtIpReputation>,
}

/// VirusTotal's verdict on an IP address.
pub struct VtIpReputation {
    pub ip: String,
    pub malicious_votes: u32,
    pub harmless_votes: u32,
    pub country: Option<String>,
    pub owner: Option<String>,
}

/// VirusTotal figures gathered for one process.
pub struct VtProcessReport {
    pub exe_positives: u32,
    pub exe_total: u32,
    pub malicious_dll_count: u32,
    pub malicious_ip_count: u32,
}

/// Everything the live scan learned about one process.
pub struct LiveProcessReport {
    pub pid: u32,
    pub name: String,
    pub exe_path: Option<String>,
    pub cmdline: Vec<String>,
    pub parent_pid: Option<u32>,
    pub parent_name: Option<String>,
    pub loaded_dlls: Vec<LoadedModule>,
    pub network_connections: Vec<NetworkConnection>,
    pub static_report: Option<AnalysisReport>,
    pub vt_report: Option<VtProcessReport>,
    pub risk_score: u32,
    pub risk_level: String,
    pub indicators: Vec<String>,
    /// Box-drawing prefix that places the process in the parent/child tree.
    pub tree_prefix: String,
    /// Depth of the process in the parent/child tree (roots are at 0).
    pub depth: usize,
}

/// The content of an [`AnalysisReport`], with its vectors taken as sequences.
pub struct AnalysisReportView {
    pub file: String,
    pub file_size: u64,
    pub sha256: String,
    pub format: String,
    pub architecture: Option<String>,
    pub is_rust: bool,
    pub rustc_version: Option<String>,
    pub rustc_commit_hash: Option<String>,
    pub dependencies: Seq<CrateInfo>,
    pub risk_score: u32,
    pub risk_level: String,
    pub indicators: Seq<String>,
    pub notes: Seq<String>,
    pub file_entropy_bits: u64,
    pub section_count: usize,
    pub compile_timestamp: Option<String>,
    pub entry_point: Option<String>,
    pub packer_hint: Option<String>,
    pub overlay_size: Option<usize>,
    pub suspicious_imports: Seq<String>,
    pub sections: Seq<SectionInfo>,
    pub iocs: Seq<String>,
    pub has_resources: bool,
    pub resource_size: Option<u32>,
    pub is_signed: bool,
    pub signature_publisher: Option<String>,
}

impl View for AnalysisReport {
    type V = AnalysisReportView;

    open spec fn view(&self) -> AnalysisReportView {
        AnalysisReportView {
            file: self.file,
            file_size: self.file_size,
            sha256: self.sha256,
            format: self.format,
            architecture: self.architecture,
            is_rust: self.is_rust,
            rustc_version: self.rustc_version,
            rustc_commit_hash: self.rustc_commit_hash,
            dependencies: self.dependencies@,
            risk_score: self.risk_score,
            risk_level: self.risk_level,
            indicators: self.indicators@,
            notes: self.notes@,
            file_entropy_bits: self.file_entropy_bits,
            section_count: self.section_count,
            compile_timestamp: self.compile_timestamp,
            entry_point: self.entry_point,
            packer_hint: self.packer_hint,
            overlay_size: self.overlay_size,
            suspicious_imports: self.suspicious_imports@,
            sections: self.sections@,
            iocs: self.iocs@,
            has_resources: self.has_resources,
            resource_size: self.resource_size,
            is_signed: self.is_signed,
            signature_publisher: self.signature_publisher,
        }
    }
}

/// The content of a [`LiveProcessReport`], with its vectors taken as sequences.
pub struct LiveProcessReportView {
    pub pid: u32,
    pub name: String,
    pub exe_path: Option<String>,
    pub cmdline: Seq<String>,
    pub parent_pid: Option<u32>,
    pub parent_name: Option<String>,
    pub loaded_dlls: Seq<LoadedModule>,
    pub network_connections: Seq<NetworkConnection>,
    pub static_report: Option<AnalysisReportView>,
    pub vt_report: Option<VtProcessReport>,
    pub risk_score: u32,
    pub risk_level: String,
    pub indicators: Seq<String>,
    pub tree_prefix: Seq<char>,
    pub depth: usize,
}

/// The content of an optional static report.
pub open spec fn static_view(r: Option<AnalysisReport>) -> Option<AnalysisReportView> {
    match r {
        Some(a) => Some(a@),
        None => None,
    }
}

impl View for LiveProcessReport {
    type V = LiveProcessReportView;

    open spec fn view(&self) -> LiveProcessReportView {
        LiveProcessReportView {
            pid: self.pid,
            name: self.name,
            exe_path: self.exe_path,
            cmdline: self.cmdline@,
            parent_pid: self.parent_pid,
            parent_name: self.parent_name,
            loaded_dlls: self.loaded_dlls@,
            network_connections: self.network_connections@,
            static_report: static_view(self.static_report),
            vt_report: self.vt_report,
            risk_score: self.risk_score,
            risk_level: self.risk_level,
            indicators: self.indicators@,
            tree_prefix: self.tree_prefix@,
            depth: self.depth,
        }
    }
}

fn clone_opt_string(s: &Option<String>) -> (r: Option<String>)
    ensures
        r == *s,
{
    match s {
        Some(x) => Some(x.clone()),
        None => None,
    }
}

fn clone_strings(v: &Vec<String>) -> (r: Vec<String>)
    ensures
        r@ == v@,
{
    let r = v.clone();
    assert(r@ =~= v@);
    r
}

impl Clone for CrateInfo {
    fn clone(&self) -> (r: Self)
        ensures
            r == *self,
    {
        CrateInfo { name: self.name.clone(), version: clone_opt_string(&self.version) }
    }
}

impl Clone for SectionInfo {
    fn clone(&self) -> (r: Self)
        ensures
            r == *self,
    {
        SectionInfo {
            name: self.name.clone(),
            size: self.size,
            entropy_bits: self.entropy_bits,
            characteristics: self.characteristics.clone(),
            suspicious: self.suspicious,
        }
    }
}

impl Clone for VtIpReputation {
    fn clone(&self) -> (r: Self)
        ensures
            r == *self,
    {
        VtIpReputation {
            ip: self.ip.clone(),
            malicious_votes: self.malicious_votes,
            harmless_votes: self.harmless_votes,
            country: clone_opt_string(&self.country),
            owner: clone_opt_string(&self.owner),
        }
    }
}

impl Clone for VtProcessReport {
    fn clone(&self) -> (r: Self)
        ensures
            r == *self,
    {
        VtProcessReport {
            exe_positives: self.exe_positives,
            exe_total: self.exe_total,
            malicious_dll_count: self.malicious_dll_count,
            malicious_ip_count: self.malicious_ip_count,
        }
    }
}

impl Clone for LoadedModule {
    fn clone(&self) -> (r: Self)
        ensures
            r == *self,
    {
        LoadedModule {
            name: self.name.clone(),
            path: self.path.clone(),
            sha256: clone_opt_string(&self.sha256),
            is_suspicious_location: self.is_suspicious_location,
            is_signed: self.is_signed,
            signature_publisher: clone_opt_string(&self.signature_publisher),
            is_unsigned_in_system_dir: self.is_unsigned_in_system_dir,
            vt_malicious_hits: self.vt_malicious_hits,
        }
    }
}

impl Clone for NetworkConnection {
    fn clone(&self) -> (r: Self)
        ensures
            r == *self,
    {
        let rep = match &self.vt_reputation {
            Some(x) => Some(x.clone()),
            None => None,
        };
        NetworkConnection {
            local_addr: self.local_addr.clone(),
            remote_addr: self.remote_addr.clone(),
            remote_ip: self.remote_ip.clone(),
            remote_port: self.remote_port,
            remote_hostname: clone_opt_string(&self.remote_hostname),
            protocol: self.protocol.clone(),
            state: self.state.clone(),
            vt_reputation: rep,
        }
    }
}

fn clone_vec<T: Clone>(v: &Vec<T>) -> (r: Vec<T>)
    requires
        forall|a: T, b: T| cloned::<T>(a, b) ==> a == b,
    ensures
        r@ == v@,
{
    let r = v.clone();
    assert(r@ =~= v@);
    r
}

impl Clone for AnalysisReport {
    fn clone(&self) -> (r: Self)
        ensures
            r@ == self@,
    {
        AnalysisReport {
            file: self.file.clone(),
            file_size: self.file_size,
            sha256: self.sha256.clone(),
            format: self.format.clone(),
            architecture: clone_opt_string(&self.architecture),
            is_rust: self.is_rust,
            rustc_version: clone_opt_string(&self.rustc_version),
            rustc_commit_hash: clone_opt_string(&self.rustc_commit_hash),
            dependencies: clone_vec(&self.dependencies),
            risk_score: self.risk_score,
            risk_level: self.risk_level.clone(),
            indicators: clone_strings(&self.indicators),
            notes: clone_strings(&self.notes),
            file_entropy_bits: self.file_entropy_bits,
            section_count: self.section_count,
            compile_timestamp: clone_opt_string(&self.compile_timestamp),
            entry_point: clone_opt_string(&self.entry_point),
            packer_hint: clone_opt_string(&self.packer_hint),
            overlay_size: self.overlay_size,
            suspicious_imports: clone_strings(&self.suspicious_imports),
            sections: clone_vec(&self.sections),
            iocs: clone_strings(&self.iocs),
            has_resources: self.has_resources,
            resource_size: self.resource_size,
            is_signed: self.is_signed,
            signature_publisher: clone_opt_string(&self.signature_publisher),
        }
    }
}

impl Clone for LiveProcessReport {
    fn clone(&self) -> (r: Self)
        ensures
            r@ == self@,
    {
        let st = match &self.static_report {
            Some(x) => Some(x.clone()),
            None => None,
        };
        let vt = match &self.vt_report {
            Some(x) => Some(x.clone()),
            None => None,
        };
        LiveProcessReport {
            pid: self.pid,
            name: self.name.clone(),
            exe_path: clone_opt_string(&self.exe_path),
            cmdline: clone_strings(&self.cmdline),
            parent_pid: self.parent_pid,
            parent_name: clone_opt_string(&self.parent_name),
            loaded_dlls: clone_vec(&self.loaded_dlls),
            network_connections: clone_vec(&self.network_connections),
            static_report: st,
            vt_report: vt,
            risk_score: self.risk_score,
            risk_level: self.risk_level.clone(),
            indicators: clone_strings(&self.indicators),
            tree_prefix: self.tree_prefix.clone(),
            depth: self.depth,
        }
    }
}

} // verus!
