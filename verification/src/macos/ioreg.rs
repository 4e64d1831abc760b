//! Pairing framebuffers with their AV services.
//!
//! The registry lists a framebuffer node (AppleCLCD2 / IOMobileFramebufferShim)
//! carrying the display's identity, followed by the DCPAVServiceProxy node that
//! carries the I2C channel. Neither node has both halves, so the walk stitches
//! each proxy onto the framebuffer that preceded it.

use crate::text;
use vstd::prelude::*;

verus! {

/// A framebuffer with its AV service.
#[derive(Debug, PartialEq, Eq)]
pub struct IoregService {
    pub edid_uuid: String,
    pub manufacturer_id: String,
    pub product_name: String,
    pub serial_number: i64,
    pub alphanumeric_serial: String,
    pub location: String,
    pub io_display_location: String,
    pub transport_upstream: String,
    pub transport_downstream: String,
    pub service_location: usize,
    /// The address of the AV service, zero where there is none.
    pub service: usize,
}

impl Default for IoregService {
    fn default() -> (s: IoregService)
        ensures
            s.edid_uuid@.len() == 0,
            s.manufacturer_id@.len() == 0,
            s.product_name@.len() == 0,
            s.serial_number == 0,
            s.alphanumeric_serial@.len() == 0,
            s.location@.len() == 0,
            s.io_display_location@.len() == 0,
            s.transport_upstream@.len() == 0,
            s.transport_downstream@.len() == 0,
            s.service_location == 0,
            s.service == 0,
    {
        IoregService {
            edid_uuid: String::new(),
            manufacturer_id: String::new(),
            product_name: String::new(),
            serial_number: 0,
            alphanumeric_serial: String::new(),
            location: String::new(),
            io_display_location: String::new(),
            transport_upstream: String::new(),
            transport_downstream: String::new(),
            service_location: 0,
            service: 0,
        }
    }
}

impl Clone for IoregService {
    fn clone(&self) -> (s: IoregService)
        ensures
            s == *self,
    {
        IoregService {
            edid_uuid: self.edid_uuid.clone(),
            manufacturer_id: self.manufacturer_id.clone(),
            product_name: self.product_name.clone(),
            serial_number: self.serial_number,
            alphanumeric_serial: self.alphanumeric_serial.clone(),
            location: self.location.clone(),
            io_display_location: self.io_display_location.clone(),
            transport_upstream: self.transport_upstream.clone(),
            transport_downstream: self.transport_downstream.clone(),
            service_location: self.service_location,
            service: self.service,
        }
    }
}

/// Names of framebuffer nodes.
pub const FRAMEBUFFER_KEYS: [&'static str; 2] = ["AppleCLCD2", "IOMobileFramebufferShim"];

/// Name of AV service nodes.
pub const AV_PROXY_KEY: &'static str = "DCPAVServiceProxy";

/// What a registry node is.
#[derive(Debug, Clone, Copy, PartialEq, Eq, Structural)]
pub enum NodeKind {
    Framebuffer,
    AvProxy,
    Other,
}

/// What a registry node is, by its name.
///
/// Exact match, never "contains": DCPAVServiceProxyUserClient is a distinct node
/// that a substring test would wrongly accept, cloning the preceding framebuffer
/// into a duplicate record.
pub open spec fn kind_of(name: Seq<char>) -> NodeKind {
    if exists|i: int| 0 <= i < 2 && name == (#[trigger] FRAMEBUFFER_KEYS@[i])@ {
        NodeKind::Framebuffer
    } else if name == AV_PROXY_KEY@ {
        NodeKind::AvProxy
    } else {
        NodeKind::Other
    }
}

/// What a registry node is, by its name.
pub fn node_kind(name: &str) -> (k: NodeKind)
    ensures
        k == kind_of(name@),
{
    let mut i: usize = 0;
    while i < 2
        invariant
            i <= 2,
            forall|k: int| 0 <= k < i ==> name@ != (#[trigger] FRAMEBUFFER_KEYS@[k])@,
        decreases 2 - i,
    {
        if text::same(name, FRAMEBUFFER_KEYS[i]) {
            return NodeKind::Framebuffer;
        }
        i = i + 1;
    }
    if text::same(name, AV_PROXY_KEY) {
        NodeKind::AvProxy
    } else {
        NodeKind::Other
    }
}

/// A registry node, as far as it matters.
#[derive(Debug)]
pub enum Node {
    /// A framebuffer and what it says of its display.
    Framebuffer(IoregService),
    /// An AV service proxy: its location, and the address of the service made
    /// for it.
    AvProxy { location: Option<String>, service: usize },
}

/// Whether an AV service is made for a proxy at a location. The embedded panel
/// speaks DisplayServices, not DDC.
pub open spec fn external(location: Option<String>) -> bool {
    location matches Some(l) && l@ == "External"@
}

/// Whether an AV service is made for a proxy at a location.
pub fn wants_service(location: &Option<String>) -> (b: bool)
    ensures
        b == external(*location),
{
    match location {
        Some(l) => text::same(l.as_str(), "External"),
        None => false,
    }
}

/// A framebuffer's service, numbered.
pub open spec fn numbered(s: IoregService, n: usize) -> IoregService {
    IoregService { service_location: n, ..s }
}

/// A service with a proxy attached: its location, and the channel where it is
/// external.
pub open spec fn attached(
    s: IoregService,
    location: Option<String>,
    service: usize,
) -> IoregService {
    match location {
        Some(l) => IoregService {
            location: l,
            service: if external(location) {
                service
            } else {
                s.service
            },
            ..s
        },
        None => s,
    }
}

/// How many nodes are framebuffers.
pub open spec fn framebuffers(nodes: Seq<Node>) -> nat
    decreases nodes.len(),
{
    if nodes.len() == 0 {
        0
    } else if nodes.last() is Framebuffer {
        framebuffers(nodes.drop_last()) + 1
    } else {
        framebuffers(nodes.drop_last())
    }
}

/// The service that a walk has in hand after some nodes, from what it had
/// before.
pub open spec fn in_hand(nodes: Seq<Node>, first: IoregService) -> IoregService
    decreases nodes.len(),
{
    if nodes.len() == 0 {
        first
    } else {
        match nodes.last() {
            Node::Framebuffer(s) => numbered(s, framebuffers(nodes) as usize),
            Node::AvProxy { location, service } => attached(
                in_hand(nodes.drop_last(), first),
                location,
                service,
            ),
        }
    }
}

/// The services that a walk finds: what it has in hand behind each proxy.
pub open spec fn stitched(nodes: Seq<Node>, first: IoregService) -> Seq<IoregService>
    decreases nodes.len(),
{
    if nodes.len() == 0 {
        Seq::empty()
    } else if nodes.last() is AvProxy {
        stitched(nodes.drop_last(), first).push(in_hand(nodes, first))
    } else {
        stitched(nodes.drop_last(), first)
    }
}

/// Whether a service says nothing.
pub open spec fn blank(s: IoregService) -> bool {
    &&& s.edid_uuid@.len() == 0
    &&& s.manufacturer_id@.len() == 0
    &&& s.product_name@.len() == 0
    &&& s.serial_number == 0
    &&& s.alphanumeric_serial@.len() == 0
    &&& s.location@.len() == 0
    &&& s.io_display_location@.len() == 0
    &&& s.transport_upstream@.len() == 0
    &&& s.transport_downstream@.len() == 0
    &&& s.service_location == 0
    &&& s.service == 0
}

/// Every framebuffer/AV-service pair among the nodes of a walk, in its order.
pub fn services_for_matching(nodes: &Vec<Node>) -> (r: Vec<IoregService>)
    ensures
        exists|first: IoregService| #[trigger]
            blank(first) && r@ == stitched(nodes@, first),
{
    let mut current = IoregService::default();
    let ghost first = current;
    let mut count: usize = 0;
    let mut out: Vec<IoregService> = Vec::new();
    let mut i: usize = 0;
    while i < nodes.len()
        invariant
            i <= nodes@.len(),
            count <= i,
            count == framebuffers(nodes@.take(i as int)),
            current == in_hand(nodes@.take(i as int), first),
            out@ == stitched(nodes@.take(i as int), first),
        decreases nodes@.len() - i,
    {
        assert(nodes@.take(i + 1).drop_last() =~= nodes@.take(i as int));
        assert(nodes@.take(i + 1).last() == nodes@[i as int]);
        match &nodes[i] {
            Node::Framebuffer(s) => {
                count = count + 1;
                current = s.clone();
                current.service_location = count;
            },
            Node::AvProxy { location, service } => {
                if let Some(l) = location {
                    current.location = l.clone();
                    if wants_service(location) {
                        current.service = *service;
                    }
                }
                out.push(current.clone());
            },
        }
        i = i + 1;
    }
    assert(nodes@.take(i as int) =~= nodes@);
    assert(blank(first));
    out
}

// ── Laws ───────────────────────────────────────────────────────────────────

/// A user client of the proxy is not a proxy, and one of the framebuffer not a
/// framebuffer.
pub proof fn law_user_clients_are_other_nodes()
    ensures
        kind_of("DCPAVServiceProxyUserClient"@) == NodeKind::Other,
        kind_of("IOMobileFramebufferShimUserClient"@) == NodeKind::Other,
{
    reveal_strlit("DCPAVServiceProxyUserClient");
    reveal_strlit("IOMobileFramebufferShimUserClient");
    reveal_strlit("AppleCLCD2");
    reveal_strlit("IOMobileFramebufferShim");
    reveal_strlit("DCPAVServiceProxy");
    assert("DCPAVServiceProxyUserClient"@.len() == 27);
    assert("IOMobileFramebufferShimUserClient"@.len() == 33);
    assert("AppleCLCD2"@.len() == 10);
    assert("IOMobileFramebufferShim"@.len() == 23);
    assert("DCPAVServiceProxy"@.len() == 17);
}

/// There is one service for each proxy.
pub proof fn law_one_service_per_proxy(nodes: Seq<Node>, first: IoregService)
    ensures
        stitched(nodes, first).len() + framebuffers(nodes) == nodes.len(),
    decreases nodes.len(),
{
    if nodes.len() > 0 {
        law_one_service_per_proxy(nodes.drop_last(), first);
    }
}

/// A proxy directly behind a framebuffer is stitched onto that framebuffer.
pub proof fn law_proxy_joins_its_framebuffer(
    nodes: Seq<Node>,
    first: IoregService,
    s: IoregService,
    location: Option<String>,
    service: usize,
)
    ensures
        ({
            let walk = nodes.push(Node::Framebuffer(s)).push(Node::AvProxy { location, service });
            &&& stitched(walk, first).len() > 0
            &&& stitched(walk, first).last() == attached(
                numbered(s, (framebuffers(nodes) + 1) as usize),
                location,
                service,
            )
        }),
{
    let with = nodes.push(Node::Framebuffer(s));
    let walk = with.push(Node::AvProxy { location, service });
    assert(with.drop_last() =~= nodes);
    assert(walk.drop_last() =~= with);
    assert(framebuffers(with) == framebuffers(nodes) + 1);
    assert(in_hand(with, first) == numbered(s, framebuffers(with) as usize));
    assert(in_hand(walk, first) == attached(in_hand(with, first), location, service));
}

/// A node is a framebuffer by either of its two names, a proxy by its one, and nothing by
/// any other, longer ones included.
pub proof fn law_nodes_go_by_their_exact_names(name: Seq<char>)
    ensures
        kind_of(name) is Framebuffer <==> name == "AppleCLCD2"@ || name
            == "IOMobileFramebufferShim"@,
        kind_of(name) is AvProxy <==> name == "DCPAVServiceProxy"@,
{
    reveal_strlit("AppleCLCD2");
    reveal_strlit("IOMobileFramebufferShim");
    reveal_strlit("DCPAVServiceProxy");
    assert("AppleCLCD2"@.len() == 10);
    assert("IOMobileFramebufferShim"@.len() == 23);
    assert("DCPAVServiceProxy"@.len() == 17);
    assert(FRAMEBUFFER_KEYS@[0]@ == "AppleCLCD2"@);
    assert(FRAMEBUFFER_KEYS@[1]@ == "IOMobileFramebufferShim"@);
}

/// Whether a node is a proxy with a channel: one outside the machine.
pub open spec fn carries(n: Node) -> bool {
    n is AvProxy && n->location is Some && n->location->0@ == "External"@
}

/// Whether a node is a proxy that says where it is.
pub open spec fn places(n: Node) -> bool {
    n is AvProxy && n->location is Some
}

/// What a walk has in hand: what the last framebuffer said, with the location and the
/// channel of the proxies behind it.
proof fn lemma_in_hand(nodes: Seq<Node>, first: IoregService, f: int, e: int, l: int)
    requires
        -1 <= f < nodes.len(),
        f >= 0 ==> nodes[f] is Framebuffer,
        forall|i: int| f < i < nodes.len() ==> #[trigger] nodes[i] is AvProxy,
        f <= e < nodes.len(),
        e > f ==> carries(nodes[e]),
        forall|i: int| e < i < nodes.len() ==> !carries(#[trigger] nodes[i]),
        f <= l < nodes.len(),
        l > f ==> places(nodes[l]),
        forall|i: int| l < i < nodes.len() ==> !places(#[trigger] nodes[i]),
    ensures
        ({
            let base = if f >= 0 {
                nodes[f]->Framebuffer_0
            } else {
                first
            };
            let s = in_hand(nodes, first);
            &&& s.edid_uuid == base.edid_uuid
            &&& s.manufacturer_id == base.manufacturer_id
            &&& s.product_name == base.product_name
            &&& s.serial_number == base.serial_number
            &&& s.alphanumeric_serial == base.alphanumeric_serial
            &&& s.io_display_location == base.io_display_location
            &&& s.transport_upstream == base.transport_upstream
            &&& s.transport_downstream == base.transport_downstream
            &&& s.service_location == if f >= 0 {
                framebuffers(nodes) as usize
            } else {
                first.service_location
            }
            &&& s.service == if e > f {
                nodes[e]->service
            } else {
                base.service
            }
            &&& s.location == if l > f {
                nodes[l]->location->0
            } else {
                base.location
            }
        }),
    decreases nodes.len(),
{
    if nodes.len() > 0 && f < nodes.len() - 1 {
        let n = nodes.len() - 1;
        let rest = nodes.drop_last();
        assert(forall|i: int| 0 <= i < rest.len() ==> #[trigger] rest[i] == nodes[i]);
        assert(nodes[n] is AvProxy);
        assert(in_hand(nodes, first) == attached(
            in_hand(rest, first),
            nodes[n]->location,
            nodes[n]->service,
        ));
        assert(framebuffers(nodes) == framebuffers(rest));
        let e2 = if e < n {
            e
        } else {
            last_carrier(rest, f)
        };
        let l2 = if l < n {
            l
        } else {
            last_placed(rest, f)
        };
        lemma_last_carrier(rest, f);
        lemma_last_placed(rest, f);
        lemma_in_hand(rest, first, f, e2, l2);
        assert(e < n ==> !carries(nodes[n]));
        assert(l < n ==> !places(nodes[n]));
    }
}

/// The last proxy with a channel behind a node, or that node.
spec fn last_carrier(nodes: Seq<Node>, f: int) -> int
    decreases nodes.len(),
{
    if nodes.len() - 1 <= f || nodes.len() == 0 {
        f
    } else if carries(nodes.last()) {
        nodes.len() - 1
    } else {
        last_carrier(nodes.drop_last(), f)
    }
}

/// The last proxy that says where it is behind a node, or that node.
spec fn last_placed(nodes: Seq<Node>, f: int) -> int
    decreases nodes.len(),
{
    if nodes.len() - 1 <= f || nodes.len() == 0 {
        f
    } else if places(nodes.last()) {
        nodes.len() - 1
    } else {
        last_placed(nodes.drop_last(), f)
    }
}

/// What the last proxy with a channel is.
proof fn lemma_last_carrier(nodes: Seq<Node>, f: int)
    requires
        -1 <= f < nodes.len(),
    ensures
        f <= last_carrier(nodes, f) < nodes.len(),
        last_carrier(nodes, f) > f ==> carries(nodes[last_carrier(nodes, f)]),
        forall|i: int| last_carrier(nodes, f) < i < nodes.len() ==> !carries(#[trigger] nodes[i]),
    decreases nodes.len(),
{
    if nodes.len() > 0 && f < nodes.len() - 1 && !carries(nodes.last()) {
        let rest = nodes.drop_last();
        assert(forall|i: int| 0 <= i < rest.len() ==> #[trigger] nodes[i] == rest[i]);
        lemma_last_carrier(rest, f);
    }
}

/// What the last proxy that says where it is is.
proof fn lemma_last_placed(nodes: Seq<Node>, f: int)
    requires
        -1 <= f < nodes.len(),
    ensures
        f <= last_placed(nodes, f) < nodes.len(),
        last_placed(nodes, f) > f ==> places(nodes[last_placed(nodes, f)]),
        forall|i: int| last_placed(nodes, f) < i < nodes.len() ==> !places(#[trigger] nodes[i]),
    decreases nodes.len(),
{
    if nodes.len() > 0 && f < nodes.len() - 1 && !places(nodes.last()) {
        let rest = nodes.drop_last();
        assert(forall|i: int| 0 <= i < rest.len() ==> #[trigger] nodes[i] == rest[i]);
        lemma_last_placed(rest, f);
    }
}

/// A walk finds one service for each proxy, in order. Each says what the framebuffer `f`
/// last met before the proxy `p` says, with the channel of the last external proxy `e` and
/// the location of the last placed proxy `l` among those behind that framebuffer, where
/// there are any. Framebuffers are numbered from one on. A proxy that no framebuffer
/// precedes says nothing of a display.
pub proof fn law_each_proxy_gets_its_framebuffer(
    nodes: Seq<Node>,
    first: IoregService,
    p: int,
    f: int,
    e: int,
    l: int,
) -> (j: int)
    requires
        nodes.len() <= usize::MAX,
        blank(first),
        0 <= p < nodes.len(),
        nodes[p] is AvProxy,
        -1 <= f < p,
        f >= 0 ==> nodes[f] is Framebuffer,
        forall|i: int| f < i < p ==> #[trigger] nodes[i] is AvProxy,
        f <= e <= p,
        e > f ==> carries(nodes[e]),
        forall|i: int| e < i <= p ==> !carries(#[trigger] nodes[i]),
        f <= l <= p,
        l > f ==> places(nodes[l]),
        forall|i: int| l < i <= p ==> !places(#[trigger] nodes[i]),
    ensures
        0 <= j < stitched(nodes, first).len(),
        j == nodes.take(p).filter(|n: Node| n is AvProxy).len(),
        ({
            let s = stitched(nodes, first)[j];
            let fb = nodes[f]->Framebuffer_0;
            &&& f >= 0 ==> {
                &&& s.edid_uuid == fb.edid_uuid
                &&& s.manufacturer_id == fb.manufacturer_id
                &&& s.product_name == fb.product_name
                &&& s.serial_number == fb.serial_number
                &&& s.alphanumeric_serial == fb.alphanumeric_serial
                &&& s.io_display_location == fb.io_display_location
                &&& s.transport_upstream == fb.transport_upstream
                &&& s.transport_downstream == fb.transport_downstream
                &&& s.service_location == p - j
                &&& e == f ==> s.service == fb.service
                &&& l == f ==> s.location == fb.location
            }
            &&& f < 0 ==> {
                &&& s.edid_uuid@.len() == 0
                &&& s.manufacturer_id@.len() == 0
                &&& s.product_name@.len() == 0
                &&& s.serial_number == 0
                &&& s.alphanumeric_serial@.len() == 0
                &&& s.io_display_location@.len() == 0
                &&& s.service_location == 0
                &&& e == f ==> s.service == 0
                &&& l == f ==> s.location@.len() == 0
            }
            &&& e > f ==> s.service == nodes[e]->service
            &&& l > f ==> s.location == nodes[l]->location->0
        }),
{
    let walk = nodes.take(p + 1);
    assert(walk.drop_last() =~= nodes.take(p));
    assert(forall|i: int| 0 <= i < walk.len() ==> #[trigger] walk[i] == nodes[i]);
    lemma_in_hand(walk, first, f, e, l);
    lemma_stitched_at(nodes, first, p);
    let j = stitched(nodes.take(p), first).len() as int;
    lemma_proxies(nodes.take(p), first);
    law_one_service_per_proxy(nodes.take(p), first);
    assert(framebuffers(walk) == framebuffers(nodes.take(p)));
    assert(stitched(nodes, first)[j] == in_hand(walk, first));
    j
}

/// How many services there are is how many proxies there are.
proof fn lemma_proxies(nodes: Seq<Node>, first: IoregService)
    ensures
        stitched(nodes, first).len() == nodes.filter(|n: Node| n is AvProxy).len(),
    decreases nodes.len(),
{
    reveal(Seq::filter);
    if nodes.len() > 0 {
        lemma_proxies(nodes.drop_last(), first);
    }
}

/// The service of a proxy stands where as many stand before it as there are proxies before.
proof fn lemma_stitched_at(nodes: Seq<Node>, first: IoregService, p: int)
    requires
        0 <= p < nodes.len(),
        nodes[p] is AvProxy,
    ensures
        stitched(nodes.take(p), first).len() < stitched(nodes, first).len(),
        stitched(nodes, first)[stitched(nodes.take(p), first).len() as int] == in_hand(
            nodes.take(p + 1),
            first,
        ),
    decreases nodes.len(),
{
    let rest = nodes.drop_last();
    if p < rest.len() {
        lemma_stitched_at(rest, first, p);
        assert(rest.take(p) =~= nodes.take(p));
        assert(rest.take(p + 1) =~= nodes.take(p + 1));
    } else {
        assert(nodes.take(p) =~= rest);
        assert(nodes.take(p + 1) =~= nodes);
    }
}

/// A channel is made for what is outside the machine and for nothing else.
pub proof fn law_channels_are_made_for_external_displays(location: Option<String>)
    ensures
        external(location) <==> location is Some && location->0@ == "External"@,
{
}

} // verus!
