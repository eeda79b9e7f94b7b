use crate::patch::{CacheUsage, PatchCoord};
use vstd::prelude::*;
use vstd::string::StringExecFns;

verus! {

/// A half-open time range `[beg, end)` in nanoseconds since the epoch.
#[derive(PartialEq, Eq, Structural, Clone, Copy, Debug)]
pub struct NanoRange {
    pub beg: u64,
    pub end: u64,
}

impl NanoRange {
    /// The length of the range; `end` must not lie before `beg`.
    pub fn delta(&self) -> (r: u64)
        requires
            self.beg <= self.end,
        ensures
            r == self.end - self.beg,
    {
        self.end - self.beg
    }
}

/// A channel: its backend and its name. Two channels are equal when both are.
pub struct Channel {
    pub backend: String,
    pub name: String,
}

/// How events are reduced before time binning.
#[derive(PartialEq, Eq, Structural, Clone, Copy, Debug)]
pub enum AggKind {
    Plain,
    TimeWeightedScalar,
    DimXBins1,
    DimXBinsN(u32),
    PulseIdDiff,
    Stats1,
}

/// A size in bytes.
#[derive(PartialEq, Eq, Structural, Clone, Copy, Debug)]
pub struct ByteSize(pub u32);

impl ByteSize {
    /// `kb` kibibytes.
    pub fn kb(kb: u32) -> (r: ByteSize)
        requires
            kb <= u32::MAX / 1024,
        ensures
            r.0 == kb * 1024,
    {
        ByteSize(kb * 1024)
    }
}

/// The type of one value of a channel.
#[derive(PartialEq, Eq, Structural, Clone, Copy, Debug)]
pub enum ScalarType {
    U8,
    U16,
    U32,
    U64,
    I8,
    I16,
    I32,
    I64,
    F32,
    F64,
    Bool,
    String,
}

impl ScalarType {
    /// The one-byte code of the type, as frame types and disk metadata use it.
    pub open spec fn code_spec(&self) -> u8 {
        match self {
            ScalarType::I8 => 2,
            ScalarType::U8 => 3,
            ScalarType::I16 => 4,
            ScalarType::U16 => 5,
            ScalarType::I32 => 7,
            ScalarType::U32 => 8,
            ScalarType::I64 => 9,
            ScalarType::U64 => 10,
            ScalarType::F32 => 11,
            ScalarType::F64 => 12,
            ScalarType::String => 13,
            ScalarType::Bool => 14,
        }
    }

    /// The one-byte code of the type.
    pub fn code(&self) -> (r: u8)
        ensures
            r == self.code_spec(),
    {
        match self {
            ScalarType::I8 => 2,
            ScalarType::U8 => 3,
            ScalarType::I16 => 4,
            ScalarType::U16 => 5,
            ScalarType::I32 => 7,
            ScalarType::U32 => 8,
            ScalarType::I64 => 9,
            ScalarType::U64 => 10,
            ScalarType::F32 => 11,
            ScalarType::F64 => 12,
            ScalarType::String => 13,
            ScalarType::Bool => 14,
        }
    }

    /// The type with the given code, if any.
    pub fn from_code(c: u8) -> (r: Option<ScalarType>)
        ensures
            r matches Some(t) ==> t.code_spec() == c,
            r is None ==> forall|t: ScalarType| t.code_spec() != c,
    {
        match c {
            2 => Some(ScalarType::I8),
            3 => Some(ScalarType::U8),
            4 => Some(ScalarType::I16),
            5 => Some(ScalarType::U16),
            7 => Some(ScalarType::I32),
            8 => Some(ScalarType::U32),
            9 => Some(ScalarType::I64),
            10 => Some(ScalarType::U64),
            11 => Some(ScalarType::F32),
            12 => Some(ScalarType::F64),
            13 => Some(ScalarType::String),
            14 => Some(ScalarType::Bool),
            _ => None,
        }
    }
}

/// The shape of one value: a scalar, or a waveform of `n > 0` elements.
#[derive(PartialEq, Eq, Structural, Clone, Copy, Debug)]
pub enum Shape {
    Scalar,
    Wave(u32),
}

/// A request for one pre-binned patch.
pub struct PreBinnedQuery {
    patch: PatchCoord,
    agg_kind: AggKind,
    channel: Channel,
    cache_usage: CacheUsage,
    disk_io_buffer_size: usize,
    disk_stats_every: ByteSize,
    report_error: bool,
}

impl PreBinnedQuery {
    pub fn new(
        patch: PatchCoord,
        channel: Channel,
        agg_kind: AggKind,
        cache_usage: CacheUsage,
        disk_io_buffer_size: usize,
        disk_stats_every: ByteSize,
        report_error: bool,
    ) -> (r: PreBinnedQuery)
        ensures
            r.patch_spec() == patch,
            r.channel_spec() == channel,
            r.agg_kind_spec() == agg_kind,
            r.cache_usage_spec() == cache_usage,
            r.disk_io_buffer_size_spec() == disk_io_buffer_size,
            r.disk_stats_every_spec() == disk_stats_every,
            r.report_error_spec() == report_error,
    {
        PreBinnedQuery {
            patch,
            agg_kind,
            channel,
            cache_usage,
            disk_io_buffer_size,
            disk_stats_every,
            report_error,
        }
    }

    pub closed spec fn patch_spec(&self) -> PatchCoord {
        self.patch
    }

    pub closed spec fn channel_spec(&self) -> Channel {
        self.channel
    }

    pub closed spec fn agg_kind_spec(&self) -> AggKind {
        self.agg_kind
    }

    pub closed spec fn cache_usage_spec(&self) -> CacheUsage {
        self.cache_usage
    }

    pub closed spec fn disk_io_buffer_size_spec(&self) -> usize {
        self.disk_io_buffer_size
    }

    pub closed spec fn disk_stats_every_spec(&self) -> ByteSize {
        self.disk_stats_every
    }

    pub closed spec fn report_error_spec(&self) -> bool {
        self.report_error
    }

    pub fn patch(&self) -> (r: &PatchCoord)
        ensures
            *r == self.patch_spec(),
    {
        &self.patch
    }

    pub fn report_error(&self) -> (r: bool)
        ensures
            r == self.report_error_spec(),
    {
        self.report_error
    }

    pub fn channel(&self) -> (r: &Channel)
        ensures
            *r == self.channel_spec(),
    {
        &self.channel
    }

    pub fn agg_kind(&self) -> (r: &AggKind)
        ensures
            *r == self.agg_kind_spec(),
    {
        &self.agg_kind
    }

    pub fn disk_stats_every(&self) -> (r: ByteSize)
        ensures
            r == self.disk_stats_every_spec(),
    {
        self.disk_stats_every
    }

    pub fn cache_usage(&self) -> (r: CacheUsage)
        ensures
            r == self.cache_usage_spec(),
    {
        self.cache_usage
    }

    pub fn disk_io_buffer_size(&self) -> (r: usize)
        ensures
            r == self.disk_io_buffer_size_spec(),
    {
        self.disk_io_buffer_size
    }
}

/// A node of the catalog database: its row id, facility and split.
pub struct Node {
    pub rowid: i64,
    pub facility: i64,
    pub split: i32,
    pub hostname: String,
}

impl Node {
    pub fn rowid(&self) -> (r: i64)
        ensures
            r == self.rowid,
    {
        self.rowid
    }

    pub fn facility(&self) -> (r: i64)
        ensures
            r == self.facility,
    {
        self.facility
    }
}

/// Where the catalog database of a facility is, and as whom to connect.
pub struct DbInfo {
    pub host: String,
    pub user: String,
    pub pass: String,
}

/// Database user and password of every facility.
pub const DB_USER: &'static str = "daqbuffer";

/// Host of the databases of the archives that run locally.
pub const DB_HOST_LOCAL: &'static str = "127.0.0.1";

/// Host of the databases of the data and image buffers.
pub const DB_HOST_BUFFER: &'static str = "sf-daqbuf-33";

fn db_info(host: &str) -> (r: DbInfo)
    ensures
        r.host@ == host@,
        r.user@ == DB_USER@,
        r.pass@ == DB_USER@,
{
    DbInfo {
        host: String::from_str(host),
        user: String::from_str(DB_USER),
        pass: String::from_str(DB_USER),
    }
}

impl DbInfo {
    pub fn gls_archive() -> (r: DbInfo)
        ensures
            r.host@ == DB_HOST_LOCAL@,
            r.user@ == DB_USER@,
            r.pass@ == DB_USER@,
    {
        db_info(DB_HOST_LOCAL)
    }

    pub fn hipa_archive() -> (r: DbInfo)
        ensures
            r.host@ == DB_HOST_LOCAL@,
            r.user@ == DB_USER@,
            r.pass@ == DB_USER@,
    {
        db_info(DB_HOST_LOCAL)
    }

    pub fn sf_databuffer() -> (r: DbInfo)
        ensures
            r.host@ == DB_HOST_BUFFER@,
            r.user@ == DB_USER@,
            r.pass@ == DB_USER@,
    {
        db_info(DB_HOST_BUFFER)
    }

    pub fn sf_imagebuffer() -> (r: DbInfo)
        ensures
            r.host@ == DB_HOST_BUFFER@,
            r.user@ == DB_USER@,
            r.pass@ == DB_USER@,
    {
        db_info(DB_HOST_BUFFER)
    }
}

/// One retrieval node of a cluster.
pub struct ClusterNode {
    pub host: String,
    pub listen: String,
    pub port: u16,
    pub port_raw: u16,
    pub data_base_path: String,
    pub cache_base_path: String,
    pub ksprefix: String,
    pub split: u32,
    pub backend: String,
}

/// The catalog database of a cluster.
pub struct Database {
    pub name: String,
    pub host: String,
    pub user: String,
    pub pass: String,
}

/// The nodes of a cluster and its database.
pub struct Cluster {
    pub nodes: Vec<ClusterNode>,
    pub database: Database,
}

/// Nodes of the local test cluster.
pub const TEST_CLUSTER_NODES: u16 = 3;

/// First HTTP port of the local test cluster; node `i` listens on this plus `i`.
pub const TEST_CLUSTER_PORT: u16 = 8360;

/// Distance from a test node's HTTP port to its raw-events port.
pub const TEST_CLUSTER_RAW_OFFSET: u16 = 100;

/// The data and cache directory of test node `id`: `tmpdata/node`
/// followed by the index in two digits.
pub open spec fn test_node_dir_spec(id: int) -> Seq<char> {
    "tmpdata/node0"@ + seq![(48 + id) as char]
}

/// Whether node `i` of a test cluster is set up as the local test cluster's.
pub open spec fn test_node_ok(n: ClusterNode, i: int) -> bool {
    &&& n.port == TEST_CLUSTER_PORT + i
    &&& n.port_raw == TEST_CLUSTER_PORT + i + TEST_CLUSTER_RAW_OFFSET
    &&& n.split == i
    &&& n.host@ == "localhost"@
    &&& n.listen@ == "0.0.0.0"@
    &&& n.data_base_path@ == test_node_dir_spec(i)
    &&& n.cache_base_path@ == test_node_dir_spec(i)
    &&& n.ksprefix@ == "ks"@
    &&& n.backend@ == "testbackend"@
}

fn test_node_dir(id: u16) -> (r: String)
    requires
        id < 10,
    ensures
        r@ == test_node_dir_spec(id as int),
{
    let mut s = String::from_str("tmpdata/node0");
    let digit = match id {
        0 => "0",
        1 => "1",
        2 => "2",
        3 => "3",
        4 => "4",
        5 => "5",
        6 => "6",
        7 => "7",
        8 => "8",
        _ => "9",
    };
    s.append(digit);
    proof {
        reveal_strlit("0");
        reveal_strlit("1");
        reveal_strlit("2");
        reveal_strlit("3");
        reveal_strlit("4");
        reveal_strlit("5");
        reveal_strlit("6");
        reveal_strlit("7");
        reveal_strlit("8");
        reveal_strlit("9");
        assert(s@ =~= test_node_dir_spec(id as int));
    }
    s
}

/// A cluster of three nodes on this host, for tests.
pub fn test_cluster() -> (r: Cluster)
    ensures
        r.nodes@.len() == TEST_CLUSTER_NODES,
        forall|i: int| 0 <= i < TEST_CLUSTER_NODES ==> test_node_ok(#[trigger] r.nodes@[i], i),
        r.database.name@ == DB_USER@,
        r.database.host@ == "localhost"@,
        r.database.user@ == DB_USER@,
        r.database.pass@ == DB_USER@,
{
    let mut nodes: Vec<ClusterNode> = Vec::new();
    let mut id: u16 = 0;
    while id < TEST_CLUSTER_NODES
        invariant
            id <= TEST_CLUSTER_NODES,
            nodes@.len() == id,
            forall|i: int| 0 <= i < id ==> test_node_ok(#[trigger] nodes@[i], i),
        decreases TEST_CLUSTER_NODES - id,
    {
        nodes.push(
            ClusterNode {
                host: String::from_str("localhost"),
                listen: String::from_str("0.0.0.0"),
                port: TEST_CLUSTER_PORT + id,
                port_raw: TEST_CLUSTER_PORT + id + TEST_CLUSTER_RAW_OFFSET,
                data_base_path: test_node_dir(id),
                cache_base_path: test_node_dir(id),
                ksprefix: String::from_str("ks"),
                split: id as u32,
                backend: String::from_str("testbackend"),
            },
        );
        id = id + 1;
    }
    Cluster {
        nodes,
        database: Database {
            name: String::from_str(DB_USER),
            host: String::from_str("localhost"),
            user: String::from_str(DB_USER),
            pass: String::from_str(DB_USER),
        },
    }
}

/// The kind of a failure reported for one backend.
#[derive(PartialEq, Eq, Structural, Clone, Copy, Debug)]
pub enum ErrorCode {
    Error,
    Timeout,
}

/// A failure reported for one backend.
#[derive(PartialEq, Eq, Structural, Clone, Copy, Debug)]
pub struct ErrorDescription {
    pub code: ErrorCode,
}

/// Sort order of search results.
#[derive(PartialEq, Eq, Structural, Clone, Copy, Debug)]
pub enum Ordering {
    NONE,
    ASC,
    DESC,
}

/// A search for channels by name, source or description.
pub struct ChannelSearchQuery {
    pub regex: Option<String>,
    pub source_regex: Option<String>,
    pub description_regex: Option<String>,
    pub backends: Vec<String>,
    pub ordering: Option<Ordering>,
}

/// The channels one backend found, or its failure.
pub struct ChannelSearchResultItem {
    pub backend: String,
    pub channels: Vec<String>,
    pub error: Option<ErrorDescription>,
}

/// The results of a channel search, one item per backend.
pub struct ChannelSearchResult(pub Vec<ChannelSearchResultItem>);

/// A search for channel configurations.
pub struct ChannelConfigsQuery {
    pub regex: Option<String>,
    pub source_regex: Option<String>,
    pub description_regex: Option<String>,
    pub backends: Vec<String>,
    pub ordering: Option<Ordering>,
}

/// The configuration of one channel.
pub struct ChannelConfig {
    pub backend: String,
    pub name: String,
    pub source: String,
    pub ty: String,
    pub shape: Option<Vec<u32>>,
    pub unit: Option<String>,
    pub description: Option<String>,
}

/// The configurations one backend found, or its failure.
pub struct ChannelBackendConfigs {
    pub backend: String,
    pub channels: Vec<ChannelConfig>,
    pub error: Option<ErrorDescription>,
}

/// The answer to a configuration search, one item per backend.
pub struct ChannelConfigsResponse(pub Vec<ChannelBackendConfigs>);

/// A result that belongs to one backend.
pub trait BackendAware {
    fn backend(&self) -> &String;
}

/// A result that stands for a backend's failure.
pub trait FromErrorCode: Sized {
    fn from_error_code(backend: &str, code: ErrorCode) -> Self;
}

impl BackendAware for ChannelSearchResultItem {
    fn backend(&self) -> &String {
        &self.backend
    }
}

impl FromErrorCode for ChannelSearchResultItem {
    fn from_error_code(backend: &str, code: ErrorCode) -> Self {
        ChannelSearchResultItem {
            backend: String::from_str(backend),
            channels: Vec::new(),
            error: Some(ErrorDescription { code }),
        }
    }
}

impl BackendAware for ChannelBackendConfigs {
    fn backend(&self) -> &String {
        &self.backend
    }
}

impl FromErrorCode for ChannelBackendConfigs {
    fn from_error_code(backend: &str, code: ErrorCode) -> Self {
        ChannelBackendConfigs {
            backend: String::from_str(backend),
            channels: Vec::new(),
            error: Some(ErrorDescription { code }),
        }
    }
}

/// The backends that the proxy knows: name, host and port of each.
pub open spec fn backends_spec() -> Seq<(Seq<char>, Seq<char>, u16)> {
    seq![
        ("gls-archive"@, "gls-data-api.psi.ch"@, 8371u16),
        ("hipa-archive"@, "hipa-data-api.psi.ch"@, 8082u16),
        ("sf-databuffer"@, "sf-daqbuf-33.psi.ch"@, 8371u16),
        ("sf-imagebuffer"@, "sf-daq-5.psi.ch"@, 8371u16),
        ("timeout"@, "sf-daqbuf-33.psi.ch"@, 8371u16),
        ("error500"@, "sf-daqbuf-33.psi.ch"@, 8371u16),
    ]
}

/// The backends that the proxy forwards to.
pub fn get_backends() -> (r: Vec<(&'static str, &'static str, u16)>)
    ensures
        r@.len() == backends_spec().len(),
        forall|i: int|
            0 <= i < r@.len() ==> ((#[trigger] r@[i]).0@, r@[i].1@, r@[i].2) == backends_spec()[i],
{
    let r: Vec<(&'static str, &'static str, u16)> = vec![
        ("gls-archive", "gls-data-api.psi.ch", 8371),
        ("hipa-archive", "hipa-data-api.psi.ch", 8082),
        ("sf-databuffer", "sf-daqbuf-33.psi.ch", 8371),
        ("sf-imagebuffer", "sf-daq-5.psi.ch", 8371),
        ("timeout", "sf-daqbuf-33.psi.ch", 8371),
        ("error500", "sf-daqbuf-33.psi.ch", 8371),
    ];
    r
}

} // verus!
