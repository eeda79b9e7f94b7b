use crate::archive::{all_digits, digits_value};
use crate::netpod::{DbInfo, Node};
use vstd::prelude::*;
use vstd::string::{StringExecFns, StringSliceAdditionalSpecFns};

verus! {

/// The `w` last decimal digits of `v`, as ASCII, most significant first.
pub open spec fn padded_digits(v: nat, w: nat) -> Seq<u8>
    decreases w,
{
    if w == 0 {
        Seq::empty()
    } else {
        padded_digits(v / 10, (w - 1) as nat).push((48 + v % 10) as u8)
    }
}

/// The decimal digits of `v` without leading zeros (`0` for zero).
pub open spec fn decimal_digits(v: nat) -> Seq<u8>
    decreases v,
{
    if v < 10 {
        seq![(48 + v) as u8]
    } else {
        decimal_digits(v / 10).push((48 + v % 10) as u8)
    }
}

/// Appends the `w` last decimal digits of `v`, zero-padded.
pub fn push_padded(out: &mut Vec<u8>, v: u64, w: u32)
    ensures
        final(out)@ == old(out)@ + padded_digits(v as nat, w as nat),
    decreases w,
{
    if w > 0 {
        push_padded(out, v / 10, w - 1);
        out.push((48 + v % 10) as u8);
        assert(final(out)@ =~= old(out)@ + padded_digits(v as nat, w as nat));
    } else {
        assert(old(out)@ + padded_digits(v as nat, 0) =~= old(out)@);
    }
}

/// Appends the decimal digits of `v`.
pub fn push_decimal(out: &mut Vec<u8>, v: u64)
    ensures
        final(out)@ == old(out)@ + decimal_digits(v as nat),
    decreases v,
{
    if v >= 10 {
        push_decimal(out, v / 10);
        out.push((48 + v % 10) as u8);
        assert(final(out)@ =~= old(out)@ + decimal_digits(v as nat));
    } else {
        out.push((48 + v) as u8);
        assert(final(out)@ =~= old(out)@ + decimal_digits(v as nat));
    }
}

/// Appends the bytes of a string.
fn push_str(out: &mut Vec<u8>, s: &str)
    ensures
        final(out)@ == old(out)@ + s.spec_bytes(),
{
    crate::patch::append_bytes(out, s.as_bytes());
}

/// The value of an all-digit name of at most 19 digits; `None` when a byte
/// is not a digit or the name is empty or longer.
pub fn decimal_value(b: &[u8]) -> (r: Option<u64>)
    ensures
        (b@.len() == 0 || b@.len() > 19 || !all_digits(b@)) ==> r is None,
        (0 < b@.len() <= 19 && all_digits(b@)) ==> r == Some(digits_value(b@) as u64),
{
    let n = b.len();
    if n == 0 || n > 19 {
        return None;
    }
    let mut v: u64 = 0;
    let mut i: usize = 0;
    while i < n
        invariant
            i <= n <= 19,
            n == b@.len(),
            all_digits(b@.subrange(0, i as int)),
            v == digits_value(b@.subrange(0, i as int)),
            v < pow10(i as nat),
        decreases n - i,
    {
        let c = b[i];
        if c < 48 || c > 57 {
            assert(!(48 <= b@[i as int] <= 57));
            return None;
        }
        proof {
            assert(b@.subrange(0, i + 1).drop_last() =~= b@.subrange(0, i as int));
            lemma_pow10_19(i as nat);
            assert(v * 10 + 9 < pow10((i + 1) as nat)) by (nonlinear_arith)
                requires
                    v < pow10(i as nat),
                    pow10((i + 1) as nat) == 10 * pow10(i as nat),
            ;
            let now = b@.subrange(0, i + 1);
            assert forall|k: int| 0 <= k < now.len() implies 48 <= #[trigger] now[k] <= 57 by {
                if k < i {
                    assert(now[k] == b@.subrange(0, i as int)[k]);
                }
            }
        }
        v = v * 10 + (c - 48) as u64;
        i = i + 1;
    }
    assert(b@.subrange(0, n as int) =~= b@);
    Some(v)
}

/// `10` to the power `n`.
pub open spec fn pow10(n: nat) -> nat
    decreases n,
{
    if n == 0 {
        1
    } else {
        10 * pow10((n - 1) as nat)
    }
}

proof fn lemma_pow10_19(n: nat)
    requires
        n <= 18,
    ensures
        pow10(n + 1) <= 10_000_000_000_000_000_000,
        pow10(n + 1) == 10 * pow10(n),
{
    lemma_pow10_mono(n + 1, 19);
    reveal_with_fuel(pow10, 20);
}

proof fn lemma_pow10_mono(a: nat, b: nat)
    requires
        a <= b,
    ensures
        pow10(a) <= pow10(b),
    decreases b,
{
    if a < b {
        lemma_pow10_mono(a, (b - 1) as nat);
    }
}

/// A time-bin directory is named by exactly 19 decimal digits.
pub fn is_timebin_dir_name(name: &[u8]) -> (r: bool)
    ensures
        r == (name@.len() == 19 && all_digits(name@)),
{
    name.len() == 19 && decimal_value(name).is_some()
}

/// A split directory is named by exactly 10 decimal digits.
pub fn is_split_dir_name(name: &[u8]) -> (r: bool)
    ensures
        r == (name@.len() == 10 && all_digits(name@)),
{
    name.len() == 10 && decimal_value(name).is_some()
}

/// Suffix of the name of a data file after its 19-digit bin size.
pub open spec fn data_suffix() -> Seq<u8> {
    seq![95u8, 48, 48, 48, 48, 48, 95, 68, 97, 116, 97]
}

/// The bin size that a data file's name states: 19 digits, then `_00000_Data`.
pub fn data_file_bin_size(name: &[u8]) -> (r: Option<u64>)
    ensures
        (name@.len() == 30 && all_digits(name@.subrange(0, 19)) && name@.subrange(19, 30)
            == data_suffix()) ==> r == Some(digits_value(name@.subrange(0, 19)) as u64),
        !(name@.len() == 30 && all_digits(name@.subrange(0, 19)) && name@.subrange(19, 30)
            == data_suffix()) ==> r is None,
{
    if name.len() != 30 {
        return None;
    }
    let suffix: [u8; 11] = [95, 48, 48, 48, 48, 48, 95, 68, 97, 116, 97];
    let mut i: usize = 0;
    while i < 11
        invariant
            i <= 11,
            name@.len() == 30,
            suffix@ == data_suffix(),
            forall|k: int| 0 <= k < i ==> name@[19 + k] == #[trigger] suffix@[k],
        decreases 11 - i,
    {
        if name[19 + i] != suffix[i] {
            assert(name@.subrange(19, 30)[i as int] != data_suffix()[i as int]);
            return None;
        }
        i = i + 1;
    }
    assert(name@.subrange(19, 30) =~= data_suffix());
    decimal_value(&name[0..19])
}

/// Where the events of one split of one time bin lie, below the data root:
/// `{ks_prefix}_{ks}/byTime/{channel}/{timebin:019}/{split:010}/{bin_size:019}_00000_Data`.
pub fn datafile_rel_path(ks_prefix: &str, ks: u32, channel: &str, timebin: u64, split: u32, bin_size: u64) -> (r: Vec<u8>)
    ensures
        r@ == ks_prefix.spec_bytes() + seq![95u8] + decimal_digits(ks as nat) + "/byTime/".spec_bytes()
            + channel.spec_bytes() + seq![47u8] + padded_digits(timebin as nat, 19) + seq![47u8]
            + padded_digits(split as nat, 10) + seq![47u8] + padded_digits(bin_size as nat, 19)
            + "_00000_Data".spec_bytes(),
{
    let mut out: Vec<u8> = Vec::new();
    push_str(&mut out, ks_prefix);
    out.push(95);
    push_decimal(&mut out, ks as u64);
    push_str(&mut out, "/byTime/");
    push_str(&mut out, channel);
    out.push(47);
    push_padded(&mut out, timebin, 19);
    out.push(47);
    push_padded(&mut out, split as u64, 10);
    out.push(47);
    push_padded(&mut out, bin_size, 19);
    push_str(&mut out, "_00000_Data");
    assert(out@ =~= ks_prefix.spec_bytes() + seq![95u8] + decimal_digits(ks as nat)
        + "/byTime/".spec_bytes() + channel.spec_bytes() + seq![47u8] + padded_digits(timebin as nat, 19)
        + seq![47u8] + padded_digits(split as nat, 10) + seq![47u8] + padded_digits(bin_size as nat, 19)
        + "_00000_Data".spec_bytes());
    out
}

/// The facilities that a node can serve.
#[derive(PartialEq, Eq, Structural, Clone, Copy, Debug)]
pub enum FacilityKind {
    HipaArchive,
    GlsArchive,
    SfImagebuffer,
    SfDatabuffer,
}

/// Hosts of each facility.
pub open spec fn facility_spec(h: Seq<char>) -> Option<FacilityKind> {
    if h == "hipa-daq-01.psi.ch"@ || h == "hipa-data-api.psi.ch"@ {
        Some(FacilityKind::HipaArchive)
    } else if h == "gls-01.psi.ch"@ || h == "gls-data-api.psi.ch"@ {
        Some(FacilityKind::GlsArchive)
    } else if h == "sf-daq-5.psi.ch"@ || h == "sf-daq-6.psi.ch"@ {
        Some(FacilityKind::SfImagebuffer)
    } else if is_databuffer_host(h) {
        Some(FacilityKind::SfDatabuffer)
    } else {
        None
    }
}

/// `sf-daqbuf-21.psi.ch` to `sf-daqbuf-33.psi.ch`.
pub open spec fn is_databuffer_host(h: Seq<char>) -> bool {
    exists|k: int| 21 <= k <= 33 && h == databuffer_host(k)
}

/// The name of data-buffer host `k`, for `k` of two digits.
pub open spec fn databuffer_host(k: int) -> Seq<char> {
    "sf-daqbuf-"@ + seq![(48 + k / 10) as char, (48 + k % 10) as char] + ".psi.ch"@
}

/// The facility served from `hostname`, if any.
pub fn facility_for_host(hostname: &String) -> (r: Option<FacilityKind>)
    ensures
        r == facility_spec(hostname@),
{
    proof {
        reveal_strlit("hipa-daq-01.psi.ch");
        reveal_strlit("hipa-data-api.psi.ch");
        reveal_strlit("gls-01.psi.ch");
        reveal_strlit("gls-data-api.psi.ch");
        reveal_strlit("sf-daq-5.psi.ch");
        reveal_strlit("sf-daq-6.psi.ch");
    }
    if *hostname == String::from_str("hipa-daq-01.psi.ch") || *hostname == String::from_str(
        "hipa-data-api.psi.ch",
    ) {
        return Some(FacilityKind::HipaArchive);
    }
    if *hostname == String::from_str("gls-01.psi.ch") || *hostname == String::from_str(
        "gls-data-api.psi.ch",
    ) {
        return Some(FacilityKind::GlsArchive);
    }
    if *hostname == String::from_str("sf-daq-5.psi.ch") || *hostname == String::from_str(
        "sf-daq-6.psi.ch",
    ) {
        return Some(FacilityKind::SfImagebuffer);
    }
    let mut k: u32 = 21;
    while k <= 33
        invariant
            21 <= k <= 34,
            !(hostname@ == "hipa-daq-01.psi.ch"@ || hostname@ == "hipa-data-api.psi.ch"@),
            !(hostname@ == "gls-01.psi.ch"@ || hostname@ == "gls-data-api.psi.ch"@),
            !(hostname@ == "sf-daq-5.psi.ch"@ || hostname@ == "sf-daq-6.psi.ch"@),
            forall|j: int| 21 <= j < k ==> hostname@ != #[trigger] databuffer_host(j),
        decreases 34 - k,
    {
        let mut name = String::from_str("sf-daqbuf-");
        let tens = if k / 10 == 2 {
            "2"
        } else {
            "3"
        };
        let ones = match k % 10 {
            0 => "0",
            1 => "1",
            2 => "2",
            3 => "3",
            4 => "4",
            5 => "5",
            6 => "6",
            7 => "7",
            8 => "8",
            _ => "9",
        };
        name.append(tens);
        name.append(ones);
        name.append(".psi.ch");
        proof {
            reveal_strlit("sf-daqbuf-");
            reveal_strlit(".psi.ch");
            reveal_strlit("0");
            reveal_strlit("1");
            reveal_strlit("2");
            reveal_strlit("3");
            reveal_strlit("4");
            reveal_strlit("5");
            reveal_strlit("6");
            reveal_strlit("7");
            reveal_strlit("8");
            reveal_strlit("9");
            assert(name@ =~= databuffer_host(k as int));
        }
        if *hostname == name {
            return Some(FacilityKind::SfDatabuffer);
        }
        k = k + 1;
    }
    None
}

/// A facility as this node serves it: its host, node row, database, and
/// where its data lies.
pub struct Facility {
    pub hostname: String,
    pub node: Node,
    pub dbinfo: DbInfo,
    pub facility: String,
    pub base_dir: String,
    pub ks_prefix: String,
}

/// Name, data root and keyspace prefix of a facility.
pub open spec fn facility_layout_spec(k: FacilityKind) -> (Seq<char>, Seq<char>, Seq<char>) {
    match k {
        FacilityKind::HipaArchive => ("hipa-archive"@, "/hipa/daq/hipa-archive/daq_local"@, "daq_local"@),
        FacilityKind::GlsArchive => ("gls-archive"@, "/gls_data/gls-archive/daq_local"@, "daq_local"@),
        FacilityKind::SfImagebuffer => (
            "sf-imagebuffer"@,
            "/gpfs/sf-data/sf-imagebuffer/daq_swissfel"@,
            "daq_swissfel"@,
        ),
        FacilityKind::SfDatabuffer => ("sf-databuffer"@, "/data/sf-databuffer/daq_swissfel"@, "daq_swissfel"@),
    }
}

/// Name, data root and keyspace prefix of a facility.
pub fn facility_layout(k: FacilityKind) -> (r: (&'static str, &'static str, &'static str))
    ensures
        (r.0@, r.1@, r.2@) == facility_layout_spec(k),
{
    match k {
        FacilityKind::HipaArchive => ("hipa-archive", "/hipa/daq/hipa-archive/daq_local", "daq_local"),
        FacilityKind::GlsArchive => ("gls-archive", "/gls_data/gls-archive/daq_local", "daq_local"),
        FacilityKind::SfImagebuffer => (
            "sf-imagebuffer",
            "/gpfs/sf-data/sf-imagebuffer/daq_swissfel",
            "daq_swissfel",
        ),
        FacilityKind::SfDatabuffer => ("sf-databuffer", "/data/sf-databuffer/daq_swissfel", "daq_swissfel"),
    }
}

/// The host of the database of a facility.
pub open spec fn facility_db_host(k: FacilityKind) -> Seq<char> {
    match k {
        FacilityKind::HipaArchive | FacilityKind::GlsArchive => crate::netpod::DB_HOST_LOCAL@,
        FacilityKind::SfImagebuffer | FacilityKind::SfDatabuffer => crate::netpod::DB_HOST_BUFFER@,
    }
}

/// The database of a facility.
pub fn facility_db(k: FacilityKind) -> (r: DbInfo)
    ensures
        r.host@ == facility_db_host(k),
        r.user@ == crate::netpod::DB_USER@,
        r.pass@ == crate::netpod::DB_USER@,
{
    match k {
        FacilityKind::HipaArchive => DbInfo::hipa_archive(),
        FacilityKind::GlsArchive => DbInfo::gls_archive(),
        FacilityKind::SfImagebuffer => DbInfo::sf_imagebuffer(),
        FacilityKind::SfDatabuffer => DbInfo::sf_databuffer(),
    }
}

impl Facility {
    /// The facility of `kind` on `hostname`, with its node row.
    pub fn new(kind: FacilityKind, hostname: String, node: Node) -> (r: Facility)
        ensures
            r.hostname == hostname,
            r.node == node,
            (r.facility@, r.base_dir@, r.ks_prefix@) == facility_layout_spec(kind),
            r.dbinfo.host@ == facility_db_host(kind),
    {
        let (name, base, ks) = facility_layout(kind);
        Facility {
            hostname,
            node,
            dbinfo: facility_db(kind),
            facility: String::from_str(name),
            base_dir: String::from_str(base),
            ks_prefix: String::from_str(ks),
        }
    }
}

} // verus!
