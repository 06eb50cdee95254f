//! The mirror of the configuration file, and the single transition from it to
//! the domain model.
//!
//! Fields are as wide as the file allows, precisely so that an out-of-range
//! value reaches [`RawConfig::validate`] as data to report, instead of hiding
//! the mistakes behind it.
use crate::config::error::{ConfigError, ConfigErrorModel, ConfigErrors, Errors};
use crate::config::vport::{
    distinct, duplicates, indexable, vport_models, Vport, VportModel, VportTable,
};
use crate::config::{
    Config, Fabric, NodeConfig, PuntConfig, Threads, VportId, THREADS_MAX, THREADS_MIN,
};
use crate::net::SocketAddr;
use crate::text::{same, texts};
use crate::wire::PUNT_VPORT;
use vstd::prelude::*;

verus! {

/// An address as the file spells it.
#[derive(Clone, Debug)]
pub struct RawAddr {
    /// What the file says.
    pub text: String,
    /// The address that the text spells, if it spells one.
    pub addr: Option<SocketAddr>,
    /// How that address is shown; whatever, if there is none.
    pub shown: String,
}

/// `[node]`.
#[derive(Clone, Debug)]
pub struct RawNode {
    /// `id`.
    pub id: String,
    /// `bind`.
    pub bind: RawAddr,
    /// `fabric`.
    pub fabric: String,
    /// `pipeline`.
    pub pipeline: String,
    /// `threads`.
    pub threads: u32,
    /// `pin_cores`.
    pub pin_cores: Option<Vec<i64>>,
    /// `ctl_socket`.
    pub ctl_socket: String,
    /// `metrics_interval_s`.
    pub metrics_interval_s: u64,
}

/// One `[[vport]]`.
#[derive(Clone, Debug)]
pub struct RawVport {
    /// `id`.
    pub id: i64,
    /// `peer`.
    pub peer: RawAddr,
}

/// `[punt]`.
#[derive(Clone, Copy, Debug)]
pub struct RawPunt {
    /// `vport`.
    pub vport: i64,
}

/// The whole file.
#[derive(Clone, Debug)]
pub struct RawConfig {
    /// `[node]`.
    pub node: RawNode,
    /// Every `[[vport]]`, in order.
    pub vport: Vec<RawVport>,
    /// `[punt]`, if it is there.
    pub punt: Option<RawPunt>,
}

/// What `fabric` is where the file does not say.
#[must_use]
pub fn default_fabric() -> (r: String)
    ensures
        r@ == "ipv4"@,
{
    let fabric: Fabric = Fabric::default();
    fabric.as_str().to_owned()
}

/// What `threads` is where the file does not say.
#[must_use]
pub fn default_threads() -> (r: u32)
    ensures
        r == 1,
{
    1
}

/// What `metrics_interval_s` is where the file does not say.
#[must_use]
pub fn default_metrics_interval_s() -> (r: u64)
    ensures
        r == 5,
{
    5
}

/// The violation `e`, if there is one.
pub open spec fn when(found: bool, e: ConfigErrorModel) -> Seq<ConfigErrorModel> {
    if found {
        seq![e]
    } else {
        Seq::empty()
    }
}

/// Whether a shard count is legal.
pub open spec fn legal_threads(n: u32) -> bool {
    THREADS_MIN <= n <= THREADS_MAX
}

/// Whether a vport id is legal: it fits, and is not the reserved one.
pub open spec fn legal_id(id: i64) -> bool {
    0 <= id < PUNT_VPORT
}

/// Whether a core id is legal.
pub open spec fn legal_core(core: i64) -> bool {
    0 <= core <= usize::MAX
}

/// The violations among the first `n` cores.
pub open spec fn core_violations(cores: Seq<i64>, n: int) -> Seq<ConfigErrorModel>
    decreases n,
{
    if n <= 0 {
        Seq::empty()
    } else {
        core_violations(cores, n - 1) + when(
            !legal_core(cores[n - 1]),
            ConfigErrorModel::NegativeCore { value: cores[n - 1] },
        )
    }
}

/// The violations of `pin_cores`: one core per shard, none negative.
pub open spec fn pin_violations(node: RawNode) -> Seq<ConfigErrorModel> {
    match node.pin_cores {
        None => Seq::empty(),
        Some(cores) => when(
            legal_threads(node.threads) && cores@.len() != node.threads,
            ConfigErrorModel::PinCoresArity {
                given: cores@.len(),
                threads: node.threads as nat,
            },
        ) + core_violations(cores@, cores@.len() as int),
    }
}

/// The violations of one vport.
pub open spec fn vport_violations(bind: Option<SocketAddr>, v: RawVport) -> Seq<ConfigErrorModel> {
    when(!legal_id(v.id), ConfigErrorModel::VportId { value: v.id }) + when(
        v.peer.addr is None,
        ConfigErrorModel::Peer { vport: v.id, value: v.peer.text@ },
    ) + when(
        refines(v) && bind == v.peer.addr,
        ConfigErrorModel::PeerIsSelf { vport: v.id as u16, value: v.peer.text@ },
    )
}

/// The violations of the first `n` vports, each by itself.
pub open spec fn vports_violations(bind: Option<SocketAddr>, v: Seq<RawVport>, n: int) -> Seq<
    ConfigErrorModel,
>
    decreases n,
{
    if n <= 0 {
        Seq::empty()
    } else {
        vports_violations(bind, v, n - 1) + vport_violations(bind, v[n - 1])
    }
}

/// Whether a vport has a legal id and an address.
pub open spec fn refines(v: RawVport) -> bool {
    legal_id(v.id) && v.peer.addr is Some
}

/// Whether every vport does.
pub open spec fn all_refine(v: Seq<RawVport>) -> bool {
    forall|i: int| 0 <= i < v.len() ==> refines(#[trigger] v[i])
}

/// The vports, where every one of them has a legal id and an address.
pub open spec fn refined(v: Seq<RawVport>) -> Seq<VportModel> {
    Seq::new(v.len(), |i: int| VportModel { id: v[i].id as u16, peer: v[i].peer.addr->0 })
}

/// How the peers are shown.
pub open spec fn peers_shown(v: Seq<RawVport>) -> Seq<Seq<char>> {
    Seq::new(v.len(), |i: int| v[i].peer.shown@)
}

/// The violations of the topology as a whole. A table missing the entries
/// that failed would report spurious uniqueness, so there are none unless
/// every entry refined.
pub open spec fn topology_violations(v: Seq<RawVport>) -> Seq<ConfigErrorModel> {
    if all_refine(v) {
        duplicates(refined(v), peers_shown(v), indexable(v.len() as int))
    } else {
        Seq::empty()
    }
}

/// The violations of `[punt]`.
pub open spec fn punt_violations(punt: Option<RawPunt>) -> Seq<ConfigErrorModel> {
    match punt {
        None => Seq::empty(),
        Some(p) => when(
            p.vport != PUNT_VPORT,
            ConfigErrorModel::PuntVport { value: p.vport, reserved: PUNT_VPORT },
        ),
    }
}

/// Every violation of `[node]` but those of `pin_cores`.
pub open spec fn node_violations(node: RawNode, registry: Seq<Seq<char>>) -> Seq<ConfigErrorModel> {
    when(node.bind.addr is None, ConfigErrorModel::Bind { value: node.bind.text@ }) + when(
        Fabric::spelled(node.fabric@) is None,
        ConfigErrorModel::Fabric { value: node.fabric@ },
    ) + when(
        !legal_threads(node.threads),
        ConfigErrorModel::Threads { value: node.threads },
    ) + when(node.id@.len() == 0, ConfigErrorModel::EmptyNodeId) + when(
        node.ctl_socket@.len() == 0,
        ConfigErrorModel::EmptyCtlSocket,
    ) + when(
        !registry.contains(node.pipeline@),
        ConfigErrorModel::UnknownPipeline { value: node.pipeline@, known: registry },
    )
}

/// Every violation, in the order in which they are reported.
pub open spec fn violations(raw: RawConfig, registry: Seq<Seq<char>>) -> Seq<ConfigErrorModel> {
    node_violations(raw.node, registry) + pin_violations(raw.node) + when(
        raw.vport@.len() == 0,
        ConfigErrorModel::NoVports,
    ) + vports_violations(raw.node.bind.addr, raw.vport@, raw.vport@.len() as int)
        + topology_violations(raw.vport@) + punt_violations(raw.punt)
}

/// The cores to pin to; none where the file does not say.
pub open spec fn cores_of(pin_cores: Option<Vec<i64>>) -> Seq<i64> {
    match pin_cores {
        Some(cores) => cores@,
        None => Seq::empty(),
    }
}

/// Whether `c` is what a file without violations says.
pub open spec fn means(raw: RawConfig, c: Config) -> bool {
    &&& c.node.id@ == raw.node.id@
    &&& raw.node.bind.addr == Some(c.node.bind)
    &&& Fabric::spelled(raw.node.fabric@) == Some(c.node.fabric)
    &&& c.node.pipeline@ == raw.node.pipeline@
    &&& c.node.threads.spec_get() == raw.node.threads
    &&& c.node.pin_cores@.len() == cores_of(raw.node.pin_cores).len()
    &&& forall|i: int|
        0 <= i < c.node.pin_cores@.len() ==> (#[trigger] c.node.pin_cores@[i]) == cores_of(
            raw.node.pin_cores,
        )[i]
    &&& c.node.ctl_socket@ == raw.node.ctl_socket@
    &&& c.node.metrics_interval == (if raw.node.metrics_interval_s > 0 {
        Some(raw.node.metrics_interval_s)
    } else {
        None
    })
    &&& c.vports@ == refined(raw.vport@)
    &&& distinct(c.vports@)
    &&& c.punt is Some <==> raw.punt is Some
    &&& c.punt matches Some(p) ==> p.vport == PUNT_VPORT
}

/// Whether `name` is one of `registry`.
fn registered(registry: &[&str], name: &str) -> (r: bool)
    ensures
        r == shown_all(registry@).contains(name@),
{
    let mut i: usize = 0;
    while i < registry.len()
        invariant
            i <= registry@.len(),
            forall|j: int| 0 <= j < i ==> (#[trigger] shown_all(registry@)[j]) != name@,
        decreases registry.len() - i,
    {
        if same(registry[i], name) {
            assert(shown_all(registry@)[i as int] == name@);
            return true;
        }
        i += 1;
    }
    false
}

/// The texts in `v`.
pub open spec fn shown_all(v: Seq<&str>) -> Seq<Seq<char>> {
    Seq::new(v.len(), |i: int| v[i]@)
}

fn owned(registry: &[&str]) -> (r: Vec<String>)
    ensures
        texts(r@) == shown_all(registry@),
{
    let mut out: Vec<String> = Vec::new();
    let mut i: usize = 0;
    while i < registry.len()
        invariant
            i <= registry@.len(),
            out@.len() == i,
            forall|j: int| 0 <= j < i ==> (#[trigger] out@[j])@ == shown_all(registry@)[j],
        decreases registry.len() - i,
    {
        out.push(registry[i].to_owned());
        i += 1;
    }
    assert(texts(out@) =~= shown_all(registry@));
    out
}

/// The cores that are legal, with a violation recorded for each other one.
fn refine_cores(cores: &[i64], errs: &mut Errors) -> (r: Vec<usize>)
    ensures
        final(errs)@ == old(errs)@ + core_violations(cores@, cores@.len() as int),
        core_violations(cores@, cores@.len() as int).len() == 0 ==> r@.len() == cores@.len() && forall|
            i: int,
        |
            0 <= i < r@.len() ==> (#[trigger] r@[i]) == cores@[i],
{
    let mut out: Vec<usize> = Vec::new();
    let mut n: usize = 0;
    assert(errs@ =~= old(errs)@ + core_violations(cores@, 0));
    while n < cores.len()
        invariant
            n <= cores@.len(),
            errs@ == old(errs)@ + core_violations(cores@, n as int),
            core_violations(cores@, n as int).len() == 0 ==> out@.len() == n && forall|i: int|
                0 <= i < out@.len() ==> (#[trigger] out@[i]) == cores@[i],
        decreases cores.len() - n,
    {
        let core: i64 = cores[n];
        if core < 0 || core as u64 > usize::MAX as u64 {
            errs.push(ConfigError::NegativeCore { value: core });
        } else {
            out.push(core as usize);
        }
        assert(errs@ =~= old(errs)@ + core_violations(cores@, n + 1));
        n += 1;
    }
    out
}

/// The vports that refine, with the violations of each recorded.
fn refine_vports(bind: Option<SocketAddr>, raw: &[RawVport], errs: &mut Errors) -> (r: (
    Vec<Vport>,
    Vec<String>,
))
    ensures
        final(errs)@ == old(errs)@ + vports_violations(bind, raw@, raw@.len() as int),
        r.0@.len() == r.1@.len(),
        r.0@.len() <= raw@.len(),
        r.0@.len() == raw@.len() <==> all_refine(raw@),
        all_refine(raw@) ==> vport_models(r.0@) == refined(raw@) && texts(r.1@) == peers_shown(raw@),
{
    let mut out: Vec<Vport> = Vec::new();
    let mut names: Vec<String> = Vec::new();
    let mut n: usize = 0;
    assert(errs@ =~= old(errs)@ + vports_violations(bind, raw@, 0));
    while n < raw.len()
        invariant
            n <= raw@.len(),
            errs@ == old(errs)@ + vports_violations(bind, raw@, n as int),
            out@.len() == names@.len(),
            out@.len() <= n,
            out@.len() == n <==> forall|i: int| 0 <= i < n ==> refines(#[trigger] raw@[i]),
            out@.len() == n ==> forall|i: int|
                0 <= i < n ==> (#[trigger] out@[i])@ == refined(raw@)[i],
            out@.len() == n ==> forall|i: int|
                0 <= i < n ==> (#[trigger] names@[i])@ == peers_shown(raw@)[i],
        decreases raw.len() - n,
    {
        let v: &RawVport = &raw[n];
        let ghost before = errs@;
        let id: Option<VportId> = if 0 <= v.id && v.id <= 0xffff {
            VportId::new(v.id as u16)
        } else {
            None
        };
        if id.is_none() {
            errs.push(ConfigError::VportId { value: v.id });
        }
        if v.peer.addr.is_none() {
            errs.push(ConfigError::Peer { vport: v.id, value: v.peer.text.clone() });
        }
        if let Some(id) = id {
            if let Some(peer) = v.peer.addr {
                if bind == Some(peer) {
                    errs.push(
                        ConfigError::PeerIsSelf { vport: id.get(), value: v.peer.text.clone() },
                    );
                }
                out.push(Vport { id, peer });
                names.push(v.peer.shown.clone());
            }
        }
        proof {
            assert(*v == raw@[n as int]);
            assert(errs@ =~= before + vport_violations(bind, raw@[n as int]));
            assert(errs@ =~= old(errs)@ + vports_violations(bind, raw@, n + 1));
        }
        n += 1;
    }
    proof {
        if out@.len() == raw@.len() {
            assert(vport_models(out@) =~= refined(raw@));
            assert(texts(names@) =~= peers_shown(raw@));
        }
    }
    (out, names)
}

proof fn lemma_regroup(
    a: Seq<ConfigErrorModel>,
    b: Seq<ConfigErrorModel>,
    c: Seq<ConfigErrorModel>,
)
    ensures
        a + b + c == a + (b + c),
{
    assert(a + b + c =~= a + (b + c));
}

/// The scalars of `[node]`, with their violations recorded.
fn refine_node(n: &RawNode, registry: &[&str], errs: &mut Errors) -> (r: (
    Option<Fabric>,
    Option<Threads>,
))
    ensures
        final(errs)@ == old(errs)@ + node_violations(*n, shown_all(registry@)),
        r.0 == Fabric::spelled(n.fabric@),
        r.1 is Some <==> legal_threads(n.threads),
        r.1 matches Some(t) ==> t.spec_get() == n.threads,
{
    let ghost known = shown_all(registry@);
    let ghost e0 = errs@;
    if n.bind.addr.is_none() {
        errs.push(ConfigError::Bind { value: n.bind.text.clone() });
    }
    let ghost e1 = errs@;
    let fabric: Option<Fabric> = Fabric::from_config_str(n.fabric.as_str());
    if fabric.is_none() {
        errs.push(ConfigError::Fabric { value: n.fabric.clone() });
    }
    let ghost e2 = errs@;
    let threads: Option<Threads> = if n.threads <= 0xff {
        Threads::new(n.threads as u8)
    } else {
        None
    };
    if threads.is_none() {
        errs.push(ConfigError::Threads { value: n.threads });
    }
    let ghost e3 = errs@;
    if n.id.as_str().unicode_len() == 0 {
        errs.push(ConfigError::EmptyNodeId);
    }
    let ghost e4 = errs@;
    if n.ctl_socket.as_str().unicode_len() == 0 {
        errs.push(ConfigError::EmptyCtlSocket);
    }
    let ghost e5 = errs@;
    if !registered(registry, n.pipeline.as_str()) {
        errs.push(
            ConfigError::UnknownPipeline { value: n.pipeline.clone(), known: owned(registry) },
        );
    }
    proof {
        let bind = when(n.bind.addr is None, ConfigErrorModel::Bind { value: n.bind.text@ });
        let fab = when(
            Fabric::spelled(n.fabric@) is None,
            ConfigErrorModel::Fabric { value: n.fabric@ },
        );
        let thr = when(
            !legal_threads(n.threads),
            ConfigErrorModel::Threads { value: n.threads },
        );
        let id = when(n.id@.len() == 0, ConfigErrorModel::EmptyNodeId);
        let ctl = when(n.ctl_socket@.len() == 0, ConfigErrorModel::EmptyCtlSocket);
        let pipe = when(
            !known.contains(n.pipeline@),
            ConfigErrorModel::UnknownPipeline { value: n.pipeline@, known },
        );
        assert(e1 =~= e0 + bind);
        assert(e2 =~= e1 + fab);
        assert(e3 =~= e2 + thr);
        assert(e4 =~= e3 + id);
        assert(e5 =~= e4 + ctl);
        assert(errs@ =~= e5 + pipe);
        lemma_regroup(e0, bind, fab);
        lemma_regroup(e0, bind + fab, thr);
        lemma_regroup(e0, bind + fab + thr, id);
        lemma_regroup(e0, bind + fab + thr + id, ctl);
        lemma_regroup(e0, bind + fab + thr + id + ctl, pipe);
    }
    (fabric, threads)
}

/// The cores to pin to, with their violations recorded.
fn refine_pins(n: &RawNode, threads: Option<Threads>, errs: &mut Errors) -> (r: Vec<usize>)
    requires
        threads is Some <==> legal_threads(n.threads),
        threads matches Some(t) ==> t.spec_get() == n.threads,
    ensures
        final(errs)@ == old(errs)@ + pin_violations(*n),
        pin_violations(*n).len() == 0 ==> r@.len() == cores_of(n.pin_cores).len() && forall|i: int|
            0 <= i < r@.len() ==> (#[trigger] r@[i]) == cores_of(n.pin_cores)[i],
{
    let ghost e0 = errs@;
    match &n.pin_cores {
        None => {
            assert(errs@ =~= e0 + pin_violations(*n));
            Vec::new()
        },
        Some(cores) => {
            if let Some(t) = threads {
                if cores.len() != t.get() {
                    errs.push(ConfigError::PinCoresArity { given: cores.len(), threads: t.get() });
                }
            }
            let ghost e1 = errs@;
            let out: Vec<usize> = refine_cores(cores.as_slice(), errs);
            proof {
                let arity = when(
                    legal_threads(n.threads) && cores@.len() != n.threads,
                    ConfigErrorModel::PinCoresArity {
                        given: cores@.len(),
                        threads: n.threads as nat,
                    },
                );
                assert(e1 =~= e0 + arity);
                assert(errs@ =~= e0 + (arity + core_violations(cores@, cores@.len() as int)));
            }
            out
        },
    }
}

/// The topology, with its violations recorded.
fn refine_topology(bind: Option<SocketAddr>, raw: &[RawVport], errs: &mut Errors) -> (r: Option<
    VportTable,
>)
    ensures
        final(errs)@ == old(errs)@ + (when(raw@.len() == 0, ConfigErrorModel::NoVports)
            + vports_violations(bind, raw@, raw@.len() as int) + topology_violations(raw@)),
        raw@.len() > 0 && all_refine(raw@) && topology_violations(raw@).len() == 0 ==> r is Some,
        r matches Some(t) ==> all_refine(raw@) && t@ == refined(raw@) && distinct(t@),
{
    let ghost e0 = errs@;
    if raw.len() == 0 {
        errs.push(ConfigError::NoVports);
    }
    let ghost e1 = errs@;
    let (vports, names): (Vec<Vport>, Vec<String>) = refine_vports(bind, raw, errs);
    let ghost e2 = errs@;
    let whole: bool = vports.len() == raw.len() && vports.len() > 0;
    let table: Option<VportTable> = if whole {
        VportTable::build(vports, names.as_slice(), errs)
    } else {
        None
    };
    proof {
        let none = when(raw@.len() == 0, ConfigErrorModel::NoVports);
        let each = vports_violations(bind, raw@, raw@.len() as int);
        let all = topology_violations(raw@);
        assert(e1 =~= e0 + none);
        assert(e2 =~= e1 + each);
        if raw@.len() == 0 {
            assert(all =~= Seq::empty());
        }
        assert(errs@ =~= e2 + all);
        assert(errs@ =~= e0 + (none + each + all));
    }
    table
}

/// The punt channel, with its violations recorded.
fn refine_punt(raw: Option<RawPunt>, errs: &mut Errors) -> (r: Option<PuntConfig>)
    ensures
        final(errs)@ == old(errs)@ + punt_violations(raw),
        r is Some <==> raw is Some,
        r matches Some(p) ==> p.vport == PUNT_VPORT,
{
    let ghost e0 = errs@;
    match raw {
        None => {
            assert(errs@ =~= e0 + punt_violations(raw));
            None
        },
        Some(p) => {
            if p.vport != PUNT_VPORT as i64 {
                errs.push(ConfigError::PuntVport { value: p.vport, reserved: PUNT_VPORT });
            }
            assert(errs@ =~= e0 + punt_violations(raw));
            Some(PuntConfig { vport: PUNT_VPORT })
        },
    }
}

/// A vport without violations of its own has a legal id and an address.
proof fn lemma_clean_vports_refine(bind: Option<SocketAddr>, v: Seq<RawVport>, n: int)
    requires
        0 <= n <= v.len(),
        vports_violations(bind, v, n).len() == 0,
    ensures
        forall|i: int| 0 <= i < n ==> refines(#[trigger] v[i]),
    decreases n,
{
    if n > 0 {
        lemma_clean_vports_refine(bind, v, n - 1);
        assert(vport_violations(bind, v[n - 1]).len() == 0);
    }
}

impl RawConfig {
    /// Refine every field, recording every violation.
    pub fn validate(self, registry: &[&str]) -> (r: Result<Config, ConfigErrors>)
        ensures
            r is Ok <==> violations(self, shown_all(registry@)).len() == 0,
            r matches Ok(c) ==> means(self, c),
            r matches Err(e) ==> e@ == violations(self, shown_all(registry@)),
    {
        let ghost raw = self;
        let ghost known = shown_all(registry@);
        let mut errs: Errors = Errors::new();
        let n: RawNode = self.node;
        let bind: Option<SocketAddr> = n.bind.addr;
        let (fabric, threads): (Option<Fabric>, Option<Threads>) = refine_node(
            &n,
            registry,
            &mut errs,
        );
        let pin_cores: Vec<usize> = refine_pins(&n, threads, &mut errs);
        let table: Option<VportTable> = refine_topology(bind, self.vport.as_slice(), &mut errs);
        let punt: Option<PuntConfig> = refine_punt(self.punt, &mut errs);
        proof {
            let node = node_violations(raw.node, known);
            let pins = pin_violations(raw.node);
            let none = when(raw.vport@.len() == 0, ConfigErrorModel::NoVports);
            let each = vports_violations(
                raw.node.bind.addr,
                raw.vport@,
                raw.vport@.len() as int,
            );
            let all = topology_violations(raw.vport@);
            let p = punt_violations(raw.punt);
            assert(errs@ =~= node + pins + (none + each + all) + p);
            assert(errs@ =~= violations(raw, known));
            if errs@.len() == 0 {
                lemma_clean_vports_refine(bind, raw.vport@, raw.vport@.len() as int);
                assert(node.len() == 0);
                assert(bind is Some && fabric is Some && threads is Some);
                assert(table is Some);
            }
        }
        let built: Option<Config> = match (bind, fabric, threads, table) {
            (Some(bind), Some(fabric), Some(threads), Some(vports)) => Some(
                Config {
                    node: NodeConfig {
                        id: n.id,
                        bind,
                        fabric,
                        pipeline: n.pipeline,
                        threads,
                        pin_cores,
                        ctl_socket: n.ctl_socket,
                        metrics_interval: if n.metrics_interval_s > 0 {
                            Some(n.metrics_interval_s)
                        } else {
                            None
                        },
                    },
                    vports,
                    punt,
                },
            ),
            _ => None,
        };
        errs.into_result(built)
    }
}

/// A configuration is accepted only if nothing is wrong with any part of it:
/// what is wrong with a part is reported, whatever is wrong with the others.
pub proof fn law_every_violation_is_reported(
    raw: RawConfig,
    registry: Seq<Seq<char>>,
    e: ConfigErrorModel,
)
    ensures
        violations(raw, registry).contains(e) <==> (node_violations(raw.node, registry).contains(e)
            || pin_violations(raw.node).contains(e) || (raw.vport@.len() == 0
            && e == ConfigErrorModel::NoVports) || vports_violations(
            raw.node.bind.addr,
            raw.vport@,
            raw.vport@.len() as int,
        ).contains(e) || topology_violations(raw.vport@).contains(e) || punt_violations(
            raw.punt,
        ).contains(e)),
{
    let node = node_violations(raw.node, registry);
    let pins = pin_violations(raw.node);
    let none = when(raw.vport@.len() == 0, ConfigErrorModel::NoVports);
    let each = vports_violations(raw.node.bind.addr, raw.vport@, raw.vport@.len() as int);
    let all = topology_violations(raw.vport@);
    let p = punt_violations(raw.punt);
    lemma_in_sum(node, pins, e);
    lemma_in_sum(node + pins, none, e);
    lemma_in_sum(node + pins + none, each, e);
    lemma_in_sum(node + pins + none + each, all, e);
    lemma_in_sum(node + pins + none + each + all, p, e);
    assert(none.contains(e) <==> raw.vport@.len() == 0 && e == ConfigErrorModel::NoVports) by {
        if none.len() > 0 {
            assert(none[0] == ConfigErrorModel::NoVports);
        }
    }
}

proof fn lemma_in_sum(a: Seq<ConfigErrorModel>, b: Seq<ConfigErrorModel>, e: ConfigErrorModel)
    ensures
        (a + b).contains(e) <==> a.contains(e) || b.contains(e),
{
    if a.contains(e) {
        let i = choose|i: int| 0 <= i < a.len() && a[i] == e;
        assert((a + b)[i] == e);
    }
    if b.contains(e) {
        let i = choose|i: int| 0 <= i < b.len() && b[i] == e;
        assert((a + b)[a.len() + i] == e);
    }
}

proof fn lemma_legal_cores(cores: Seq<i64>, n: int)
    requires
        0 <= n <= cores.len(),
    ensures
        core_violations(cores, n).len() == 0 <==> (forall|i: int|
            0 <= i < n ==> 0 <= #[trigger] cores[i] <= usize::MAX),
    decreases n,
{
    if n > 0 {
        lemma_legal_cores(cores, n - 1);
    }
}

proof fn lemma_legal_vports(bind: Option<SocketAddr>, v: Seq<RawVport>, n: int)
    requires
        0 <= n <= v.len(),
    ensures
        vports_violations(bind, v, n).len() == 0 <==> (forall|i: int|
            0 <= i < n ==> 0 <= (#[trigger] v[i]).id < 65535 && v[i].peer.addr is Some
                && v[i].peer.addr != bind),
    decreases n,
{
    if n > 0 {
        lemma_legal_vports(bind, v, n - 1);
    }
}

/// Which files are accepted: those whose addresses can be read, whose fabric is
/// one of two, with one to sixteen shards, a name, a control socket, a known
/// pipeline, one legal core for each shard where cores are named at all, and at
/// least one vport, each with a legal id of its own and a peer of its own that
/// is not the node itself. A punt section names the reserved id. Every other
/// file has something to report.
#[verifier::rlimit(40)]
pub proof fn law_what_a_file_must_say(raw: RawConfig, registry: Seq<Seq<char>>)
    requires
        raw.vport@.len() <= 0x1_0000,
    ensures
        violations(raw, registry).len() == 0 <==> {
            let node = raw.node;
            let v = raw.vport@;
            &&& node.bind.addr is Some
            &&& node.fabric@ == "ipv4"@ || node.fabric@ == "ipv6"@
            &&& 1 <= node.threads <= 16
            &&& node.id@.len() > 0
            &&& node.ctl_socket@.len() > 0
            &&& registry.contains(node.pipeline@)
            &&& node.pin_cores matches Some(cores) ==> cores@.len() == node.threads && forall|
                i: int,
            |
                0 <= i < cores@.len() ==> 0 <= #[trigger] cores@[i] <= usize::MAX
            &&& v.len() > 0
            &&& forall|i: int|
                0 <= i < v.len() ==> 0 <= (#[trigger] v[i]).id < 65535 && v[i].peer.addr is Some
                    && v[i].peer.addr != node.bind.addr
            &&& forall|i: int, j: int|
                0 <= i < j < v.len() ==> (#[trigger] v[i]).id != (#[trigger] v[j]).id
                    && v[i].peer.addr != v[j].peer.addr
            &&& raw.punt matches Some(p) ==> p.vport == 65535
        },
{
    lemma_legal_node(raw.node, registry);
    lemma_legal_pins(raw.node);
    lemma_legal_vports(raw.node.bind.addr, raw.vport@, raw.vport@.len() as int);
    lemma_legal_topology(raw.vport@);
    let v = raw.vport@;
    let each = vports_violations(raw.node.bind.addr, v, v.len() as int);
    assert(violations(raw, registry).len() == node_violations(raw.node, registry).len()
        + pin_violations(raw.node).len() + when(v.len() == 0, ConfigErrorModel::NoVports).len()
        + each.len() + topology_violations(v).len() + punt_violations(raw.punt).len());
    assert(each.len() == 0 ==> all_refine(v));
}

#[verifier::rlimit(40)]
proof fn lemma_legal_node(node: RawNode, registry: Seq<Seq<char>>)
    ensures
        node_violations(node, registry).len() == 0 <==> {
            &&& node.bind.addr is Some
            &&& node.fabric@ == "ipv4"@ || node.fabric@ == "ipv6"@
            &&& 1 <= node.threads <= 16
            &&& node.id@.len() > 0
            &&& node.ctl_socket@.len() > 0
            &&& registry.contains(node.pipeline@)
        },
{
}

proof fn lemma_legal_pins(node: RawNode)
    ensures
        legal_threads(node.threads) ==> (pin_violations(node).len() == 0 <==> (
        node.pin_cores matches Some(cores) ==> cores@.len() == node.threads && forall|i: int|
            0 <= i < cores@.len() ==> 0 <= #[trigger] cores@[i] <= usize::MAX)),
{
    if let Some(cores) = node.pin_cores {
        lemma_legal_cores(cores@, cores@.len() as int);
    }
}

proof fn lemma_legal_topology(v: Seq<RawVport>)
    requires
        v.len() <= 0x1_0000,
    ensures
        all_refine(v) ==> (topology_violations(v).len() == 0 <==> (forall|i: int, j: int|
            0 <= i < j < v.len() ==> (#[trigger] v[i]).id != (#[trigger] v[j]).id
                && v[i].peer.addr != v[j].peer.addr)),
{
    if all_refine(v) {
        let m = refined(v);
        let n = v.len() as int;
        crate::config::vport::law_duplicates_are_found(m, peers_shown(v), n);
        if topology_violations(v).len() == 0 {
            assert forall|i: int, j: int| 0 <= i < j < v.len() implies (#[trigger] v[i]).id != (
            #[trigger] v[j]).id && v[i].peer.addr != v[j].peer.addr by {
                assert(m[i].id != m[j].id && m[i].peer != m[j].peer);
                assert(refines(v[i]) && refines(v[j]));
            }
        }
        if forall|i: int, j: int|
            0 <= i < j < v.len() ==> (#[trigger] v[i]).id != (#[trigger] v[j]).id
                && v[i].peer.addr != v[j].peer.addr {
            assert forall|i: int, j: int| 0 <= i < j < n implies (#[trigger] m[i]).id != (
            #[trigger] m[j]).id && m[i].peer != m[j].peer by {
                assert(v[i].id != v[j].id && v[i].peer.addr != v[j].peer.addr);
                assert(refines(v[i]) && refines(v[j]));
            }
        }
    }
}

proof fn lemma_when(found: bool, e: ConfigErrorModel, x: ConfigErrorModel)
    ensures
        (when(found, e)).contains(x) <==> found && x == e,
{
    if found {
        assert(when(found, e)[0] == e);
    }
}

proof fn lemma_node_reports(node: RawNode, registry: Seq<Seq<char>>, x: ConfigErrorModel)
    ensures
        node_violations(node, registry).contains(x) <==> {
            ||| node.bind.addr is None && x == (ConfigErrorModel::Bind { value: node.bind.text@ })
            ||| Fabric::spelled(node.fabric@) is None && x == (ConfigErrorModel::Fabric {
                value: node.fabric@,
            })
            ||| !legal_threads(node.threads) && x == (ConfigErrorModel::Threads {
                value: node.threads,
            })
            ||| node.id@.len() == 0 && x == ConfigErrorModel::EmptyNodeId
            ||| node.ctl_socket@.len() == 0 && x == ConfigErrorModel::EmptyCtlSocket
            ||| !registry.contains(node.pipeline@) && x == (ConfigErrorModel::UnknownPipeline {
                value: node.pipeline@,
                known: registry,
            })
        },
{
    let a = when(node.bind.addr is None, ConfigErrorModel::Bind { value: node.bind.text@ });
    let b = when(
        Fabric::spelled(node.fabric@) is None,
        ConfigErrorModel::Fabric { value: node.fabric@ },
    );
    let c = when(
        !legal_threads(node.threads),
        ConfigErrorModel::Threads { value: node.threads },
    );
    let d = when(node.id@.len() == 0, ConfigErrorModel::EmptyNodeId);
    let e = when(node.ctl_socket@.len() == 0, ConfigErrorModel::EmptyCtlSocket);
    let unknown = ConfigErrorModel::UnknownPipeline { value: node.pipeline@, known: registry };
    let f = when(!registry.contains(node.pipeline@), unknown);
    lemma_in_sum(a, b, x);
    lemma_in_sum(a + b, c, x);
    lemma_in_sum(a + b + c, d, x);
    lemma_in_sum(a + b + c + d, e, x);
    lemma_in_sum(a + b + c + d + e, f, x);
    lemma_when(node.bind.addr is None, ConfigErrorModel::Bind { value: node.bind.text@ }, x);
    lemma_when(
        Fabric::spelled(node.fabric@) is None,
        ConfigErrorModel::Fabric { value: node.fabric@ },
        x,
    );
    lemma_when(
        !legal_threads(node.threads),
        ConfigErrorModel::Threads { value: node.threads },
        x,
    );
    lemma_when(node.id@.len() == 0, ConfigErrorModel::EmptyNodeId, x);
    lemma_when(node.ctl_socket@.len() == 0, ConfigErrorModel::EmptyCtlSocket, x);
    lemma_when(!registry.contains(node.pipeline@), unknown, x);
}

/// Each mistake in the node's own settings is reported by what the file says,
/// and a punt section by the id it names, whatever else is wrong.
#[verifier::rlimit(40)]
pub proof fn law_mistakes_of_the_node_are_reported(raw: RawConfig, registry: Seq<Seq<char>>)
    ensures
        ({
            let r = violations(raw, registry);
            let node = raw.node;
            &&& node.bind.addr is None ==> r.contains(
                ConfigErrorModel::Bind { value: node.bind.text@ },
            )
            &&& node.fabric@ != "ipv4"@ && node.fabric@ != "ipv6"@ ==> r.contains(
                ConfigErrorModel::Fabric { value: node.fabric@ },
            )
            &&& node.threads == 0 || node.threads > 16 ==> r.contains(
                ConfigErrorModel::Threads { value: node.threads },
            )
            &&& node.id@.len() == 0 ==> r.contains(ConfigErrorModel::EmptyNodeId)
            &&& node.ctl_socket@.len() == 0 ==> r.contains(ConfigErrorModel::EmptyCtlSocket)
            &&& !registry.contains(node.pipeline@) ==> r.contains(
                ConfigErrorModel::UnknownPipeline { value: node.pipeline@, known: registry },
            )
            &&& raw.vport@.len() == 0 ==> r.contains(ConfigErrorModel::NoVports)
            &&& raw.punt matches Some(p) ==> (p.vport != 65535 ==> r.contains(
                ConfigErrorModel::PuntVport { value: p.vport, reserved: 65535 },
            ))
            &&& node.pin_cores matches Some(cores) ==> (1 <= node.threads <= 16 && cores@.len()
                != node.threads ==> r.contains(
                ConfigErrorModel::PinCoresArity {
                    given: cores@.len(),
                    threads: node.threads as nat,
                },
            ))
        }),
{
    let node = raw.node;
    let bind = ConfigErrorModel::Bind { value: node.bind.text@ };
    let fabric = ConfigErrorModel::Fabric { value: node.fabric@ };
    let threads = ConfigErrorModel::Threads { value: node.threads };
    let unknown = ConfigErrorModel::UnknownPipeline { value: node.pipeline@, known: registry };
    law_every_violation_is_reported(raw, registry, bind);
    law_every_violation_is_reported(raw, registry, fabric);
    law_every_violation_is_reported(raw, registry, threads);
    law_every_violation_is_reported(raw, registry, ConfigErrorModel::EmptyNodeId);
    law_every_violation_is_reported(raw, registry, ConfigErrorModel::EmptyCtlSocket);
    law_every_violation_is_reported(raw, registry, unknown);
    law_every_violation_is_reported(raw, registry, ConfigErrorModel::NoVports);
    lemma_node_reports(node, registry, bind);
    lemma_node_reports(node, registry, fabric);
    lemma_node_reports(node, registry, threads);
    lemma_node_reports(node, registry, ConfigErrorModel::EmptyNodeId);
    lemma_node_reports(node, registry, ConfigErrorModel::EmptyCtlSocket);
    lemma_node_reports(node, registry, unknown);
    if let Some(p) = raw.punt {
        let e = ConfigErrorModel::PuntVport { value: p.vport, reserved: 65535 };
        law_every_violation_is_reported(raw, registry, e);
        lemma_when(p.vport != 65535, e, e);
    }
    if let Some(cores) = node.pin_cores {
        let e = ConfigErrorModel::PinCoresArity {
            given: cores@.len(),
            threads: node.threads as nat,
        };
        let wrong = legal_threads(node.threads) && cores@.len() != node.threads;
        law_every_violation_is_reported(raw, registry, e);
        lemma_when(wrong, e, e);
        lemma_in_sum(when(wrong, e), core_violations(cores@, cores@.len() as int), e);
    }
}

proof fn lemma_core_reported(cores: Seq<i64>, n: int, i: int)
    requires
        0 <= i < n <= cores.len(),
        !(0 <= cores[i] <= usize::MAX),
    ensures
        core_violations(cores, n).contains(ConfigErrorModel::NegativeCore { value: cores[i] }),
    decreases n,
{
    let e = ConfigErrorModel::NegativeCore { value: cores[i] };
    let last = ConfigErrorModel::NegativeCore { value: cores[n - 1] };
    let bad = !legal_core(cores[n - 1]);
    lemma_in_sum(core_violations(cores, n - 1), when(bad, last), e);
    lemma_when(bad, last, e);
    if i < n - 1 {
        lemma_core_reported(cores, n - 1, i);
    }
}

proof fn lemma_vport_reported(
    bind: Option<SocketAddr>,
    v: Seq<RawVport>,
    n: int,
    i: int,
    e: ConfigErrorModel,
)
    requires
        0 <= i < n <= v.len(),
        vport_violations(bind, v[i]).contains(e),
    ensures
        vports_violations(bind, v, n).contains(e),
    decreases n,
{
    lemma_in_sum(vports_violations(bind, v, n - 1), vport_violations(bind, v[n - 1]), e);
    if i < n - 1 {
        lemma_vport_reported(bind, v, n - 1, i, e);
    }
}

/// Each mistake in a vport is reported with its id: an id that is not one, a
/// peer that cannot be read, a peer that is the node itself. So is each core
/// that is none.
#[verifier::rlimit(40)]
pub proof fn law_mistakes_of_a_vport_are_reported(
    raw: RawConfig,
    registry: Seq<Seq<char>>,
    i: int,
)
    ensures
        ({
            let r = violations(raw, registry);
            let v = raw.vport@[i];
            let legal = 0 <= v.id < 65535;
            &&& 0 <= i < raw.vport@.len() && !legal ==> r.contains(
                ConfigErrorModel::VportId { value: v.id },
            )
            &&& 0 <= i < raw.vport@.len() && v.peer.addr is None ==> r.contains(
                ConfigErrorModel::Peer { vport: v.id, value: v.peer.text@ },
            )
            &&& 0 <= i < raw.vport@.len() && legal && v.peer.addr is Some && v.peer.addr
                == raw.node.bind.addr ==> r.contains(
                ConfigErrorModel::PeerIsSelf { vport: v.id as u16, value: v.peer.text@ },
            )
            &&& raw.node.pin_cores matches Some(cores) ==> (0 <= i < cores@.len() && !(0
                <= cores@[i] <= usize::MAX) ==> r.contains(
                ConfigErrorModel::NegativeCore { value: cores@[i] },
            ))
        }),
{
    let bind = raw.node.bind.addr;
    let v = raw.vport@[i];
    let n = raw.vport@.len() as int;
    if 0 <= i < n {
        let e1 = ConfigErrorModel::VportId { value: v.id };
        let e2 = ConfigErrorModel::Peer { vport: v.id, value: v.peer.text@ };
        let e3 = ConfigErrorModel::PeerIsSelf { vport: v.id as u16, value: v.peer.text@ };
        let a = when(!legal_id(v.id), e1);
        let b = when(v.peer.addr is None, e2);
        let c = when(refines(v) && bind == v.peer.addr, e3);
        lemma_when(!legal_id(v.id), e1, e1);
        lemma_when(v.peer.addr is None, e2, e2);
        lemma_when(refines(v) && bind == v.peer.addr, e3, e3);
        lemma_in_sum(a, b, e1);
        lemma_in_sum(a, b, e2);
        lemma_in_sum(a + b, c, e1);
        lemma_in_sum(a + b, c, e2);
        lemma_in_sum(a + b, c, e3);
        law_every_violation_is_reported(raw, registry, e1);
        law_every_violation_is_reported(raw, registry, e2);
        law_every_violation_is_reported(raw, registry, e3);
        if vport_violations(bind, v).contains(e1) {
            lemma_vport_reported(bind, raw.vport@, n, i, e1);
        }
        if vport_violations(bind, v).contains(e2) {
            lemma_vport_reported(bind, raw.vport@, n, i, e2);
        }
        if vport_violations(bind, v).contains(e3) {
            lemma_vport_reported(bind, raw.vport@, n, i, e3);
        }
    }
    if let Some(cores) = raw.node.pin_cores {
        if 0 <= i < cores@.len() && !(0 <= cores@[i] <= usize::MAX) {
            let e = ConfigErrorModel::NegativeCore { value: cores@[i] };
            let arity = ConfigErrorModel::PinCoresArity {
                given: cores@.len(),
                threads: raw.node.threads as nat,
            };
            let wrong = legal_threads(raw.node.threads) && cores@.len() != raw.node.threads;
            law_every_violation_is_reported(raw, registry, e);
            lemma_core_reported(cores@, cores@.len() as int, i);
            lemma_in_sum(when(wrong, arity), core_violations(cores@, cores@.len() as int), e);
        }
    }
}

/// What an accepted file comes to: the vports in the file's order, each under
/// its id with its peer, no pinning and no punt queue unless the file asks for
/// them, and no snapshots where their interval is zero.
pub proof fn law_what_a_file_means(raw: RawConfig, c: Config, i: int)
    requires
        means(raw, c),
        0 <= i < raw.vport@.len(),
        0 <= raw.vport@[i].id < 65535,
    ensures
        c.node.id@ == raw.node.id@,
        c.node.pipeline@ == raw.node.pipeline@,
        c.node.ctl_socket@ == raw.node.ctl_socket@,
        Some(c.node.bind) == raw.node.bind.addr,
        c.node.threads.spec_get() == raw.node.threads,
        raw.node.fabric@ == "ipv4"@ ==> c.node.fabric == Fabric::V4,
        raw.node.fabric@ == "ipv6"@ ==> c.node.fabric == Fabric::V6,
        raw.node.pin_cores is None ==> c.node.pin_cores@.len() == 0,
        raw.node.pin_cores matches Some(cores) ==> c.node.pin_cores@.len() == cores@.len() && (0
            <= i < cores@.len() ==> c.node.pin_cores@[i] == cores@[i]),
        raw.node.metrics_interval_s == 0 ==> c.node.metrics_interval is None,
        raw.node.metrics_interval_s > 0 ==> c.node.metrics_interval == Some(
            raw.node.metrics_interval_s,
        ),
        c.vports@.len() == raw.vport@.len(),
        c.vports@[i].id == raw.vport@[i].id,
        raw.vport@[i].peer.addr is Some ==> raw.vport@[i].peer.addr == Some(c.vports@[i].peer),
        c.punt is Some <==> raw.punt is Some,
        c.punt matches Some(p) ==> p.vport == 65535,
{
    crate::config::law_fabric_spelling_round_trip();
}

} // verus!
