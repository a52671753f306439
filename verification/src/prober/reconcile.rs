//! One look at the racks: which nodes are probed, and how a probe goes from
//! its first pod to the annotations that tell of it. Every probe carries a
//! tag of its own, so that what an earlier look left behind does not disturb
//! it.

use super::annotations;
use super::annotations::{Figures, NodePatch, Verdict, VerdictModel};
use super::pair;
use super::pair::NodeView;
use super::pods;
use super::pods::{Phase, PodManifest, PodModel, PodSpec, Role};
use super::results::ProbeRecord;
use super::Resolved;
use crate::hashing;
use crate::json;
use crate::k8s::node::NodeObject;
use crate::number;
use crate::sorting;
use crate::text;
use crate::textmap;
use crate::textmap::TextMap;
use crate::time;
use std::collections::hash_map::DefaultHasher;
use std::hash::Hasher;
use vstd::multiset::Multiset;
use vstd::prelude::*;
use vstd::std_specs::hash::DefaultHasherAdditionalSpecFns;

verus! {

// ---------------------------------------------------------------------
// What is probed
// ---------------------------------------------------------------------

/// The nodes of a probe.
#[derive(Debug)]
pub enum Target {
    /// A probe between two nodes: the server's and the client's.
    Pair(NodeView, NodeView),
    /// A probe of one node by itself.
    Loopback(NodeView),
}

/// A probe to be made.
#[derive(Debug)]
pub struct Plan {
    pub rack: String,
    pub target: Target,
}

/// What is probed in a rack: a pair, or its only node by itself.
pub open spec fn target_of(
    members: Seq<NodeView>,
    history: TextMap<String>,
    cutoff: Seq<char>,
) -> Option<Target> {
    match pair::next_pair(members, cutoff) {
        Some((a, b)) => Some(Target::Pair(a, b)),
        None => match pair::next_loopback(members, history, cutoff) {
            Some(n) => Some(Target::Loopback(n)),
            None => None,
        },
    }
}

/// The probes to be made in racks, in the order of the racks.
pub open spec fn plans_of(
    racks: Seq<(String, Vec<NodeView>)>,
    history: TextMap<String>,
    cutoff: Seq<char>,
) -> Seq<Plan>
    decreases racks.len(),
{
    if racks.len() == 0 {
        Seq::empty()
    } else {
        let head = plans_of(racks.drop_last(), history, cutoff);
        let (rack, members) = racks.last();
        match target_of(members@, history, cutoff) {
            Some(target) => head.push(Plan { rack, target }),
            None => head,
        }
    }
}

fn target(members: &Vec<NodeView>, history: &TextMap<String>, cutoff: &str) -> (r: Option<Target>)
    ensures
        r == target_of(members@, *history, cutoff@),
{
    match pair::pick_pair(members.as_slice(), cutoff) {
        Some((a, b)) => Some(Target::Pair(a.clone(), b.clone())),
        None => match pair::pick_loopback(members.as_slice(), history, cutoff) {
            Some(n) => Some(Target::Loopback(n.clone())),
            None => None,
        },
    }
}

/// The probes to be made in the given racks. `history` tells when nodes were
/// last probed by themselves, and probes before `cutoff` are too old.
pub fn plan_racks(racks: &TextMap<Vec<NodeView>>, history: &TextMap<String>, cutoff: &str) -> (r: Vec<
    Plan,
>)
    ensures
        textmap::increasing(racks.seq()),
        r@ == plans_of(racks.seq(), *history, cutoff@),
{
    let entries = racks.entries();
    let mut out: Vec<Plan> = Vec::new();
    let mut i: usize = 0;
    while i < entries.len()
        invariant
            i <= entries@.len(),
            out@ == plans_of(entries@.take(i as int), *history, cutoff@),
        decreases entries@.len() - i,
    {
        proof {
            let t = entries@.take(i + 1);
            assert(t.drop_last() =~= entries@.take(i as int));
            assert(t.last() == entries@[i as int]);
        }
        match target(&entries[i].1, history, cutoff) {
            Some(target) => {
                out.push(Plan { rack: entries[i].0.clone(), target });
            },
            None => {},
        }
        i = i + 1;
    }
    assert(entries@.take(entries@.len() as int) =~= entries@);
    out
}

/// The plans are those of the racks of the given nodes.
pub open spec fn are_plans(nodes: Seq<NodeObject>, cutoff: Seq<char>, plans: Seq<Plan>) -> bool {
    exists|racks: TextMap<Vec<NodeView>>, history: TextMap<String>|
        {
            &&& textmap::increasing(racks.seq())
            &&& pair::group_models(racks) == pair::racks_of(pair::eligible_of(nodes))
            &&& textmap::text_values(history) == pair::loopback_times(nodes)
            &&& plans == #[trigger] plans_of(racks.seq(), history, cutoff)
        }
}

/// The probes to be made among the nodes of a cluster, rack by rack.
pub fn plan(nodes: &Vec<NodeObject>, cutoff: &str) -> (r: Vec<Plan>)
    ensures
        are_plans(nodes@, cutoff@, r@),
{
    let racks = pair::group_by_rack(pair::eligible(nodes));
    let history = pair::loopback_history(nodes);
    plan_racks(&racks, &history, cutoff)
}

// ---------------------------------------------------------------------
// The tag of a probe
// ---------------------------------------------------------------------

/// Two texts in order.
pub open spec fn in_order(a: Seq<char>, b: Seq<char>) -> Seq<Seq<char>> {
    if text::text_lt(a, b) {
        seq![a, b]
    } else {
        seq![b, a]
    }
}

/// The tag of a probe between the nodes at a second: the hash of how many
/// nodes there are, of their names in order, and of the second.
pub open spec fn tag_of(a: Seq<char>, b: Seq<char>, secs: u64) -> Seq<char> {
    number::zero_padded(
        number::hex(
            DefaultHasher::spec_finish(
                (seq![hashing::number_bytes(2)] + hashing::hashed(in_order(a, b))).push(
                    hashing::number_bytes(secs),
                ),
            ) as nat,
        ),
        16,
    )
}

/// The tag of a probe between the nodes at the given second.
pub fn pair_tag_at(a: &str, b: &str, secs: u64) -> (r: String)
    ensures
        r@ == tag_of(a@, b@, secs),
{
    let (first, second) = if text::less(a, b) {
        (a, b)
    } else {
        (b, a)
    };
    let mut hasher = DefaultHasher::new();
    hashing::hash_number(&mut hasher, 2);
    hashing::hash_text(&mut hasher, first);
    hashing::hash_text(&mut hasher, second);
    hashing::hash_number(&mut hasher, secs);
    proof {
        let two = in_order(a@, b@);
        reveal_with_fuel(hashing::hashed, 3);
        assert(two.drop_last() =~= seq![first@]);
        assert(two.drop_last().drop_last() =~= Seq::empty());
        assert(hasher@ =~= (seq![hashing::number_bytes(2)] + hashing::hashed(two)).push(
            hashing::number_bytes(secs),
        ));
    }
    number::hex_padded(hasher.finish(), 16)
}

/// The tag of a probe between the nodes that starts now.
pub fn pair_tag(a: &str, b: &str) -> (r: String)
    ensures
        exists|secs: u64| time::clock_reads(secs) && r@ == #[trigger] tag_of(a@, b@, secs),
{
    let secs: u64 = time::unix_now();
    pair_tag_at(a, b, secs)
}

/// The tag of a probe does not depend on which node is the server.
pub proof fn law_tag_is_symmetric(a: Seq<char>, b: Seq<char>, secs: u64)
    ensures
        tag_of(a, b, secs) == tag_of(b, a, secs),
{
    text::lemma_text_lt_total(a, b);
    if text::text_lt(a, b) {
        text::lemma_text_lt_asymmetric(a, b);
    }
}

/// A rack gets at most one probe at a time, and the racks come in order.
pub proof fn law_one_probe_per_rack(
    racks: Seq<(String, Vec<NodeView>)>,
    history: TextMap<String>,
    cutoff: Seq<char>,
    i: int,
    j: int,
)
    requires
        textmap::increasing(racks),
        0 <= i < j < plans_of(racks, history, cutoff).len(),
    ensures
        text::text_lt(
            plans_of(racks, history, cutoff)[i].rack@,
            plans_of(racks, history, cutoff)[j].rack@,
        ),
    decreases racks.len(),
{
    let head = racks.drop_last();
    let before = plans_of(head, history, cutoff);
    assert forall|a: int, b: int| 0 <= a < b < head.len() implies text::text_lt(
        (#[trigger] head[a]).0@,
        (#[trigger] head[b]).0@,
    ) by {
        assert(head[a] == racks[a] && head[b] == racks[b]);
    }
    if j < before.len() {
        law_one_probe_per_rack(head, history, cutoff, i, j);
    } else {
        let k = lemma_plan_has_rack(head, history, cutoff, i);
        assert(head[k] == racks[k]);
    }
}

/// Where the rack of a plan stands.
proof fn lemma_plan_has_rack(
    racks: Seq<(String, Vec<NodeView>)>,
    history: TextMap<String>,
    cutoff: Seq<char>,
    i: int,
) -> (k: int)
    requires
        0 <= i < plans_of(racks, history, cutoff).len(),
    ensures
        0 <= k < racks.len(),
        racks[k].0 == plans_of(racks, history, cutoff)[i].rack,
        target_of(racks[k].1@, history, cutoff) == Some(plans_of(racks, history, cutoff)[i].target),
    decreases racks.len(),
{
    let before = plans_of(racks.drop_last(), history, cutoff);
    if i < before.len() {
        lemma_plan_has_rack(racks.drop_last(), history, cutoff, i)
    } else {
        racks.len() - 1
    }
}

/// The node is one of those of the target.
pub open spec fn takes_part(t: Target, n: NodeView) -> bool {
    match t {
        Target::Pair(a, b) => n == a || n == b,
        Target::Loopback(a) => n == a,
    }
}

/// The nodes of a probe are nodes of its rack, and can be probed.
pub proof fn law_probe_stays_in_rack(
    nodes: Seq<NodeObject>,
    racks: TextMap<Vec<NodeView>>,
    history: TextMap<String>,
    cutoff: Seq<char>,
    i: int,
    n: NodeView,
)
    requires
        textmap::increasing(racks.seq()),
        pair::group_models(racks) == pair::racks_of(pair::eligible_of(nodes)),
        0 <= i < plans_of(racks.seq(), history, cutoff).len(),
        takes_part(plans_of(racks.seq(), history, cutoff)[i].target, n),
    ensures
        n.rack@ == plans_of(racks.seq(), history, cutoff)[i].rack@,
        pair::eligible_of(nodes).contains(n@),
{
    let k = lemma_plan_has_rack(racks.seq(), history, cutoff, i);
    let (rack, members) = racks.seq()[k];
    let all = pair::eligible_of(nodes);
    textmap::lemma_map_at(racks.seq(), k);
    assert(racks@[rack@] == members);
    assert(pair::group_models(racks).contains_key(rack@));
    let models = pair::node_models(members@);
    assert(pair::group_models(racks)[rack@] == models);
    let plain = pair::rack_members(all, rack@);
    assert(pair::racks_of(all)[rack@] == sorting::arranged(plain, pair::name_before()));
    sorting::lemma_arranged_same_elements(members@, pair::older());
    let sorted = pair::by_age(members@);
    if members@.len() >= 1 {
        sorting::lemma_arranged_contains(members@, pair::older(), sorted[0]);
        assert(sorted.contains(sorted[0]));
    }
    if members@.len() >= 2 {
        sorting::lemma_arranged_contains(members@, pair::older(), sorted[1]);
        assert(sorted.contains(sorted[1]));
    }
    assert(members@.contains(n));
    let m = choose|m: int| 0 <= m < members@.len() && members@[m] == n;
    assert(models[m] == n@);
    sorting::lemma_arranged_contains(plain, pair::name_before(), n@);
    assert(plain.contains(n@));
    sorting::lemma_filter_member(all, |x: pair::NodeModel| x.rack == rack@, n@);
}

// ---------------------------------------------------------------------
// How a probe goes
// ---------------------------------------------------------------------

/// A probe under way.
#[derive(Debug)]
pub struct Probe {
    pub rack: String,
    pub target: Target,
    /// The tag that its pods carry.
    pub pair_id: String,
    pub args: Resolved,
}

/// How far a probe has come.
#[derive(Debug)]
pub enum Stage {
    /// The server's pod is being made.
    CreatingServer,
    /// The server's pod, by its name, is about to get an address.
    AwaitingIp(String),
    /// The client's pod is being made, for the server's.
    CreatingClient(String),
    /// The two pods, the server's and the client's, are running.
    Running(String, String),
    /// The client's pod has ended well, and its record is being read.
    Reading(String, String),
    /// The probe is over.
    Finished,
}

/// What happened to a probe.
#[derive(Debug)]
pub enum Event {
    /// No pod could be put together from the manifest.
    Unbuilt(String),
    /// A pod was made, with the name it got, or was not.
    Created(Result<Option<String>, String>),
    /// The server's pod has an address, or gets none.
    Ip(Result<String, String>),
    /// The client's pod has come to an end, or was lost.
    Ended(Result<Phase, String>),
    /// The client's record, with its figures as shown to people, or why
    /// there is none.
    Record(Result<ProbeRecord<String>, String>),
}

/// What is to be done for a probe.
#[derive(Debug)]
pub enum Action {
    CreatePod(PodManifest),
    /// Wait, at most so many seconds, until the pod has an address.
    AwaitIp(String, u64),
    /// Wait, at most so many seconds, until the pod ends.
    AwaitTerminal(String, u64),
    ReadRecord(String),
    DeletePod(String),
    /// Count the probe.
    Count(Attempt),
    /// Tell the nodes of the probe.
    Patch(Verdict),
}

/// One more probe in a counter.
#[derive(Debug)]
pub struct Attempt {
    pub metric: &'static str,
    pub rack: String,
    pub verdict: &'static str,
}

/// The model of a stage.
pub enum StageModel {
    CreatingServer,
    AwaitingIp(Seq<char>),
    CreatingClient(Seq<char>),
    Running(Seq<char>, Seq<char>),
    Reading(Seq<char>, Seq<char>),
    Finished,
}

/// The model of an event.
pub enum EventModel {
    Unbuilt(Seq<char>),
    Created(Result<Option<Seq<char>>, Seq<char>>),
    Ip(Result<Seq<char>, Seq<char>>),
    Ended(Result<Phase, Seq<char>>),
    Record(Result<VerdictModel, Seq<char>>),
}

/// The model of an action.
pub enum ActionModel {
    CreatePod(PodModel),
    AwaitIp(Seq<char>, nat),
    AwaitTerminal(Seq<char>, nat),
    ReadRecord(Seq<char>),
    DeletePod(Seq<char>),
    Count { metric: Seq<char>, rack: Seq<char>, verdict: Seq<char> },
    Patch(VerdictModel),
}

impl View for Stage {
    type V = StageModel;

    open spec fn view(&self) -> StageModel {
        match self {
            Stage::CreatingServer => StageModel::CreatingServer,
            Stage::AwaitingIp(s) => StageModel::AwaitingIp(s@),
            Stage::CreatingClient(s) => StageModel::CreatingClient(s@),
            Stage::Running(s, c) => StageModel::Running(s@, c@),
            Stage::Reading(s, c) => StageModel::Reading(s@, c@),
            Stage::Finished => StageModel::Finished,
        }
    }
}

/// What a record says of its probe.
pub open spec fn verdict_of(r: ProbeRecord<String>) -> VerdictModel {
    if r.ok {
        VerdictModel::Passed(
            annotations::FiguresModel {
                device: r.device@,
                bw_avg: text::opt_text(r.bw_avg_gbps),
                bw_peak: text::opt_text(r.bw_peak_gbps),
                msg_rate: text::opt_text(r.msg_rate_mpps),
            },
        )
    } else {
        VerdictModel::Fail(
            match r.message {
                Some(m) => m@,
                None => "probe ok=false"@,
            },
        )
    }
}

impl View for Event {
    type V = EventModel;

    open spec fn view(&self) -> EventModel {
        match self {
            Event::Unbuilt(e) => EventModel::Unbuilt(e@),
            Event::Created(Ok(name)) => EventModel::Created(Ok(text::opt_text(*name))),
            Event::Created(Err(e)) => EventModel::Created(Err(e@)),
            Event::Ip(Ok(ip)) => EventModel::Ip(Ok(ip@)),
            Event::Ip(Err(e)) => EventModel::Ip(Err(e@)),
            Event::Ended(Ok(p)) => EventModel::Ended(Ok(*p)),
            Event::Ended(Err(e)) => EventModel::Ended(Err(e@)),
            Event::Record(Ok(r)) => EventModel::Record(Ok(verdict_of(*r))),
            Event::Record(Err(e)) => EventModel::Record(Err(e@)),
        }
    }
}

impl View for Action {
    type V = ActionModel;

    open spec fn view(&self) -> ActionModel {
        match self {
            Action::CreatePod(p) => ActionModel::CreatePod(p@),
            Action::AwaitIp(s, n) => ActionModel::AwaitIp(s@, *n as nat),
            Action::AwaitTerminal(s, n) => ActionModel::AwaitTerminal(s@, *n as nat),
            Action::ReadRecord(s) => ActionModel::ReadRecord(s@),
            Action::DeletePod(s) => ActionModel::DeletePod(s@),
            Action::Count(a) => ActionModel::Count { metric: a.metric@, rack: a.rack@, verdict: a.verdict@ },
            Action::Patch(v) => ActionModel::Patch(v@),
        }
    }
}

/// The models of actions.
pub open spec fn action_models(v: Seq<Action>) -> Seq<ActionModel> {
    v.map_values(|a: Action| a@)
}

/// A stage, and what is to be done on the way to it.
pub type StepModel = (StageModel, Seq<ActionModel>);

impl Probe {
    /// The server's node.
    pub open spec fn server_node(self) -> Seq<char> {
        match self.target {
            Target::Pair(a, _) => a.name@,
            Target::Loopback(n) => n.name@,
        }
    }

    /// The client's node.
    pub open spec fn client_node(self) -> Seq<char> {
        match self.target {
            Target::Pair(_, b) => b.name@,
            Target::Loopback(n) => n.name@,
        }
    }

    /// The server's pod, where there is an image for it.
    pub open spec fn server_pod(self) -> Option<PodModel> {
        match self.args.probe_image {
            Some(image) => Some(
                pods::manifest_of(
                    Role::Server,
                    self.server_node(),
                    self.client_node(),
                    None,
                    self.rack@,
                    self.pair_id@,
                    self.args,
                    image@,
                ),
            ),
            None => None,
        }
    }

    /// The client's pod for a server with the given address, where there is
    /// an image for it.
    pub open spec fn client_pod(self, ip: Seq<char>) -> Option<PodModel> {
        match self.args.probe_image {
            Some(image) => Some(
                pods::manifest_of(
                    Role::Client,
                    self.client_node(),
                    self.server_node(),
                    Some(ip),
                    self.rack@,
                    self.pair_id@,
                    self.args,
                    image@,
                ),
            ),
            None => None,
        }
    }

    /// The counter of probes of this kind.
    pub open spec fn metric(self) -> Seq<char> {
        match self.target {
            Target::Pair(_, _) => "roce.probe.attempts.total"@,
            Target::Loopback(_) => "roce.probe.loopback.attempts.total"@,
        }
    }

    /// Counting the probe, and telling of it.
    pub open spec fn told(self, verdict: VerdictModel) -> Seq<ActionModel> {
        seq![
            ActionModel::Count {
                metric: self.metric(),
                rack: self.rack@,
                verdict: annotations::label_of(verdict),
            },
            ActionModel::Patch(verdict),
        ]
    }

    /// The probe fails before its client ends: its pods go, and it is told
    /// of.
    pub open spec fn given_up(self, pods: Seq<Seq<char>>, message: Seq<char>) -> StepModel {
        (
            StageModel::Finished,
            pods.map_values(|p: Seq<char>| ActionModel::DeletePod(p)) + self.told(
                VerdictModel::Fail(message),
            ),
        )
    }

    /// The probe ends: it is told of, and its pods go, the client's first.
    pub open spec fn concluded(self, server: Seq<char>, client: Seq<char>, verdict: VerdictModel) -> StepModel {
        (
            StageModel::Finished,
            self.told(verdict) + seq![ActionModel::DeletePod(client), ActionModel::DeletePod(server)],
        )
    }

    /// How the probe starts.
    pub open spec fn started(self) -> StepModel {
        match self.server_pod() {
            Some(pod) => (StageModel::CreatingServer, seq![ActionModel::CreatePod(pod)]),
            None => self.given_up(
                Seq::empty(),
                "build server pod: "@ + "probe_image (set ACCELRD_PROBER_PROBE_IMAGE)"@,
            ),
        }
    }

    /// How the probe goes on after an event. An event that does not fit the
    /// stage changes nothing.
    pub open spec fn stepped(self, stage: StageModel, event: EventModel) -> StepModel {
        match (stage, event) {
            (StageModel::CreatingServer, EventModel::Created(Ok(name))) => {
                let server = match name {
                    Some(n) => n,
                    None => Seq::empty(),
                };
                (StageModel::AwaitingIp(server), seq![ActionModel::AwaitIp(server, 60)])
            },
            (StageModel::CreatingServer, EventModel::Unbuilt(e)) => self.given_up(
                Seq::empty(),
                "build server pod: "@ + e,
            ),
            (StageModel::CreatingServer, EventModel::Created(Err(e))) => self.given_up(
                Seq::empty(),
                "create server pod: "@ + e,
            ),
            (StageModel::AwaitingIp(server), EventModel::Ip(Ok(ip))) => match self.client_pod(ip) {
                Some(pod) => (StageModel::CreatingClient(server), seq![ActionModel::CreatePod(pod)]),
                None => self.given_up(
                    seq![server],
                    "build client pod: "@ + "probe_image (set ACCELRD_PROBER_PROBE_IMAGE)"@,
                ),
            },
            (StageModel::AwaitingIp(server), EventModel::Ip(Err(e))) => self.given_up(
                seq![server],
                "server pod IP: "@ + e,
            ),
            (StageModel::CreatingClient(server), EventModel::Created(Ok(name))) => {
                let client = match name {
                    Some(n) => n,
                    None => Seq::empty(),
                };
                (
                    StageModel::Running(server, client),
                    seq![
                        ActionModel::AwaitTerminal(
                            client,
                            self.args.test_duration_secs.wrapping_add(120) as nat,
                        ),
                    ],
                )
            },
            (StageModel::CreatingClient(server), EventModel::Unbuilt(e)) => self.given_up(
                seq![server],
                "build client pod: "@ + e,
            ),
            (StageModel::CreatingClient(server), EventModel::Created(Err(e))) => self.given_up(
                seq![server],
                "create client pod: "@ + e,
            ),
            (StageModel::Running(server, client), EventModel::Ended(Ok(phase))) => match phase {
                Phase::Succeeded => (
                    StageModel::Reading(server, client),
                    seq![ActionModel::ReadRecord(client)],
                ),
                Phase::Failed => self.concluded(
                    server,
                    client,
                    VerdictModel::Fail("client pod phase Failed"@),
                ),
                Phase::Timeout => self.concluded(server, client, VerdictModel::Timeout),
            },
            (StageModel::Running(server, client), EventModel::Ended(Err(e))) => self.given_up(
                seq![server, client],
                "watch client pod: "@ + e,
            ),
            (StageModel::Reading(server, client), EventModel::Record(Ok(verdict))) => self.concluded(
                server,
                client,
                verdict,
            ),
            (StageModel::Reading(server, client), EventModel::Record(Err(e))) => self.concluded(
                server,
                client,
                VerdictModel::Fail("read client pod: "@ + e),
            ),
            _ => (stage, Seq::empty()),
        }
    }

    /// The probe that a plan asks for, with a tag of its own.
    pub fn begin(plan: Plan, args: &Resolved) -> (r: Self)
        ensures
            r.rack == plan.rack,
            r.target == plan.target,
            r.args == *args,
            exists|secs: u64|
                time::clock_reads(secs) && r.pair_id@ == #[trigger] tag_of(r.server_node(), r.client_node(), secs),
    {
        let (server, client) = match &plan.target {
            Target::Pair(a, b) => (a.name.as_str(), b.name.as_str()),
            Target::Loopback(n) => (n.name.as_str(), n.name.as_str()),
        };
        let pair_id = pair_tag(server, client);
        let ghost (a, b) = (server@, client@);
        let r = Probe { rack: plan.rack, target: plan.target, pair_id, args: args.clone() };
        assert(r.server_node() == a && r.client_node() == b);
        r
    }

    fn server_name(&self) -> (r: &str)
        ensures
            r@ == self.server_node(),
    {
        match &self.target {
            Target::Pair(a, _) => a.name.as_str(),
            Target::Loopback(n) => n.name.as_str(),
        }
    }

    fn client_name(&self) -> (r: &str)
        ensures
            r@ == self.client_node(),
    {
        match &self.target {
            Target::Pair(_, b) => b.name.as_str(),
            Target::Loopback(n) => n.name.as_str(),
        }
    }

    fn tell(&self, actions: &mut Vec<Action>, verdict: Verdict)
        ensures
            action_models(final(actions)@) == action_models(old(actions)@) + self.told(verdict@),
    {
        let metric = match &self.target {
            Target::Pair(_, _) => "roce.probe.attempts.total",
            Target::Loopback(_) => "roce.probe.loopback.attempts.total",
        };
        let label = verdict.label();
        let ghost told = self.told(verdict@);
        let ghost before = action_models(actions@);
        actions.push(Action::Count(Attempt { metric, rack: self.rack.clone(), verdict: label }));
        actions.push(Action::Patch(verdict));
        assert(action_models(actions@) =~= before + told);
    }

    fn give_up(&self, pods: Vec<String>, doing: &str, why: &str) -> (r: (Stage, Vec<Action>))
        ensures
            (r.0@, action_models(r.1@)) == self.given_up(text::texts(pods@), doing@ + why@),
    {
        let mut actions: Vec<Action> = Vec::new();
        let ghost names = text::texts(pods@);
        let ghost deletes = names.map_values(|p: Seq<char>| ActionModel::DeletePod(p));
        let mut i: usize = 0;
        assert(action_models(actions@) =~= deletes.take(0));
        while i < pods.len()
            invariant
                i <= pods@.len(),
                names == text::texts(pods@),
                deletes == names.map_values(|p: Seq<char>| ActionModel::DeletePod(p)),
                action_models(actions@) == deletes.take(i as int),
            decreases pods@.len() - i,
        {
            let ghost before = action_models(actions@);
            actions.push(Action::DeletePod(pods[i].clone()));
            proof {
                assert(names[i as int] == pods@[i as int]@);
                assert(action_models(actions@) =~= before.push(ActionModel::DeletePod(names[i as int])));
                assert(deletes.take(i + 1) =~= before.push(deletes[i as int]));
            }
            i = i + 1;
        }
        assert(deletes.take(deletes.len() as int) =~= deletes);
        self.tell(&mut actions, Verdict::Fail(text::join2(doing, why)));
        (Stage::Finished, actions)
    }

    fn conclude(&self, server: String, client: String, verdict: Verdict) -> (r: (Stage, Vec<Action>))
        ensures
            (r.0@, action_models(r.1@)) == self.concluded(server@, client@, verdict@),
    {
        let mut actions: Vec<Action> = Vec::new();
        let ghost want = self.concluded(server@, client@, verdict@).1;
        let ghost told = self.told(verdict@);
        assert(action_models(actions@) + told =~= told);
        self.tell(&mut actions, verdict);
        actions.push(Action::DeletePod(client));
        actions.push(Action::DeletePod(server));
        assert(action_models(actions@) =~= want);
        (Stage::Finished, actions)
    }

    /// How the probe starts.
    pub fn start(&self) -> (r: (Stage, Vec<Action>))
        ensures
            (r.0@, action_models(r.1@)) == self.started(),
    {
        let spec = PodSpec {
            role: Role::Server,
            node_name: self.server_name(),
            partner_node: self.client_name(),
            partner_ip: None,
            rack: self.rack.as_str(),
            pair_id: self.pair_id.as_str(),
            args: &self.args,
        };
        match pods::build_pod(&spec) {
            Ok(pod) => {
                let mut actions: Vec<Action> = Vec::new();
                let ghost m = ActionModel::CreatePod(pod@);
                actions.push(Action::CreatePod(pod));
                assert(action_models(actions@) =~= seq![m]);
                (Stage::CreatingServer, actions)
            },
            Err(e) => {
                let pods: Vec<String> = Vec::new();
                assert(text::texts(pods@) =~= Seq::empty());
                self.give_up(pods, "build server pod: ", e.message())
            },
        }
    }

    fn make_client(&self, server: String, ip: String) -> (r: (Stage, Vec<Action>))
        ensures
            (r.0@, action_models(r.1@)) == self.stepped(
                StageModel::AwaitingIp(server@),
                EventModel::Ip(Ok(ip@)),
            ),
    {
        let spec = PodSpec {
            role: Role::Client,
            node_name: self.client_name(),
            partner_node: self.server_name(),
            partner_ip: Some(ip.as_str()),
            rack: self.rack.as_str(),
            pair_id: self.pair_id.as_str(),
            args: &self.args,
        };
        match pods::build_pod(&spec) {
            Ok(pod) => {
                let mut actions: Vec<Action> = Vec::new();
                let ghost m = ActionModel::CreatePod(pod@);
                actions.push(Action::CreatePod(pod));
                assert(action_models(actions@) =~= seq![m]);
                (Stage::CreatingClient(server), actions)
            },
            Err(e) => {
                let ghost name = server@;
                let mut pods: Vec<String> = Vec::new();
                pods.push(server);
                assert(text::texts(pods@) =~= seq![name]);
                self.give_up(pods, "build client pod: ", e.message())
            },
        }
    }

    /// How the probe goes on after an event. An event that does not fit the
    /// stage changes nothing.
    pub fn step(&self, stage: Stage, event: Event) -> (r: (Stage, Vec<Action>))
        ensures
            (r.0@, action_models(r.1@)) == self.stepped(stage@, event@),
    {
        let ghost from = stage@;
        let ghost what = event@;
        let mut actions: Vec<Action> = Vec::new();
        let mut pods: Vec<String> = Vec::new();
        match (stage, event) {
            (Stage::CreatingServer, Event::Created(Ok(name))) => {
                let server = named(name);
                actions.push(Action::AwaitIp(server.clone(), 60));
                assert(action_models(actions@) =~= self.stepped(from, what).1);
                (Stage::AwaitingIp(server), actions)
            },
            (Stage::CreatingServer, Event::Unbuilt(e)) => {
                assert(text::texts(pods@) =~= Seq::empty());
                self.give_up(pods, "build server pod: ", e.as_str())
            },
            (Stage::CreatingServer, Event::Created(Err(e))) => {
                assert(text::texts(pods@) =~= Seq::empty());
                self.give_up(pods, "create server pod: ", e.as_str())
            },
            (Stage::AwaitingIp(server), Event::Ip(Ok(ip))) => self.make_client(server, ip),
            (Stage::AwaitingIp(server), Event::Ip(Err(e))) => {
                let ghost name = server@;
                pods.push(server);
                assert(text::texts(pods@) =~= seq![name]);
                self.give_up(pods, "server pod IP: ", e.as_str())
            },
            (Stage::CreatingClient(server), Event::Created(Ok(name))) => {
                let client = named(name);
                let secs: u64 = self.args.test_duration_secs.wrapping_add(120);
                actions.push(Action::AwaitTerminal(client.clone(), secs));
                assert(action_models(actions@) =~= self.stepped(from, what).1);
                (Stage::Running(server, client), actions)
            },
            (Stage::CreatingClient(server), Event::Unbuilt(e)) => {
                let ghost name = server@;
                pods.push(server);
                assert(text::texts(pods@) =~= seq![name]);
                self.give_up(pods, "build client pod: ", e.as_str())
            },
            (Stage::CreatingClient(server), Event::Created(Err(e))) => {
                let ghost name = server@;
                pods.push(server);
                assert(text::texts(pods@) =~= seq![name]);
                self.give_up(pods, "create client pod: ", e.as_str())
            },
            (Stage::Running(server, client), Event::Ended(Ok(phase))) => match phase {
                Phase::Succeeded => {
                    actions.push(Action::ReadRecord(client.clone()));
                    assert(action_models(actions@) =~= self.stepped(from, what).1);
                    (Stage::Reading(server, client), actions)
                },
                Phase::Failed => {
                    let verdict = Verdict::Fail("client pod phase Failed".to_owned());
                    self.conclude(server, client, verdict)
                },
                Phase::Timeout => self.conclude(server, client, Verdict::Timeout),
            },
            (Stage::Running(server, client), Event::Ended(Err(e))) => {
                let ghost names = seq![server@, client@];
                pods.push(server);
                pods.push(client);
                assert(text::texts(pods@) =~= names);
                self.give_up(pods, "watch client pod: ", e.as_str())
            },
            (Stage::Reading(server, client), Event::Record(Ok(r))) => {
                self.conclude(server, client, judge(r))
            },
            (Stage::Reading(server, client), Event::Record(Err(e))) => {
                let verdict = Verdict::Fail(text::join2("read client pod: ", e.as_str()));
                self.conclude(server, client, verdict)
            },
            (stage, _) => {
                assert(action_models(actions@) =~= Seq::empty());
                (stage, actions)
            },
        }
    }

    /// The annotation patches that tell of the probe: those of both nodes,
    /// or that of the one.
    pub fn patches(&self, now: &str, verdict: &Verdict) -> (r: Vec<NodePatch>)
        ensures
            match self.target {
                Target::Pair(a, b) => {
                    &&& r@.len() == 2
                    &&& r@[0].node@ == a.name@
                    &&& json::json_members(r@[0].annotations) == annotations::body_of(
                        annotations::Family::Rack,
                        Some(b.name@),
                        now@,
                        verdict@,
                    )
                    &&& r@[1].node@ == b.name@
                    &&& json::json_members(r@[1].annotations) == annotations::body_of(
                        annotations::Family::Rack,
                        Some(a.name@),
                        now@,
                        verdict@,
                    )
                },
                Target::Loopback(n) => {
                    &&& r@.len() == 1
                    &&& r@[0].node@ == n.name@
                    &&& json::json_members(r@[0].annotations) == annotations::body_of(
                        annotations::Family::Loopback,
                        None,
                        now@,
                        verdict@,
                    )
                },
            },
    {
        match &self.target {
            Target::Pair(a, b) => annotations::patch_pair(a.name.as_str(), b.name.as_str(), now, verdict),
            Target::Loopback(n) => annotations::patch_loopback(n.name.as_str(), now, verdict),
        }
    }
}

fn named(name: Option<String>) -> (r: String)
    ensures
        r@ == match name {
            Some(n) => n@,
            None => Seq::empty(),
        },
{
    match name {
        Some(n) => n,
        None => {
            let s = String::new();
            assert(s@ =~= Seq::empty());
            s
        },
    }
}

/// What a record says of its probe.
fn judge(r: ProbeRecord<String>) -> (v: Verdict)
    ensures
        v@ == verdict_of(r),
{
    if r.ok {
        Verdict::Passed(
            Figures {
                device: r.device,
                bw_avg: r.bw_avg_gbps,
                bw_peak: r.bw_peak_gbps,
                msg_rate: r.msg_rate_mpps,
            },
        )
    } else {
        match r.message {
            Some(m) => Verdict::Fail(m),
            None => Verdict::Fail("probe ok=false".to_owned()),
        }
    }
}

/// The age in seconds at which a pod is a leftover, in the arithmetic of
/// 64-bit integers: four times the length of a probe, and ten minutes.
pub fn orphan_age(args: &Resolved) -> (r: u64)
    ensures
        r == args.test_duration_secs.wrapping_mul(4).wrapping_add(600),
{
    args.test_duration_secs.wrapping_mul(4).wrapping_add(600)
}

// ---------------------------------------------------------------------
// What holds of every probe
// ---------------------------------------------------------------------

/// The pods that stand at a stage.
pub open spec fn standing(stage: StageModel) -> Multiset<Seq<char>> {
    match stage {
        StageModel::AwaitingIp(s) => Multiset::singleton(s),
        StageModel::CreatingClient(s) => Multiset::singleton(s),
        StageModel::Running(s, c) => Multiset::singleton(s).add(Multiset::singleton(c)),
        StageModel::Reading(s, c) => Multiset::singleton(s).add(Multiset::singleton(c)),
        _ => Multiset::empty(),
    }
}

/// The pods that an event at a stage tells were made for the probe.
pub open spec fn made(stage: StageModel, event: EventModel) -> Multiset<Seq<char>> {
    match (stage, event) {
        (
            StageModel::CreatingServer | StageModel::CreatingClient(_),
            EventModel::Created(Ok(name)),
        ) => Multiset::singleton(
            match name {
                Some(n) => n,
                None => Seq::empty(),
            },
        ),
        _ => Multiset::empty(),
    }
}

/// The pods that actions delete.
pub open spec fn deleted(actions: Seq<ActionModel>) -> Multiset<Seq<char>>
    decreases actions.len(),
{
    if actions.len() == 0 {
        Multiset::empty()
    } else {
        let head = deleted(actions.drop_last());
        match actions.last() {
            ActionModel::DeletePod(p) => head.insert(p),
            _ => head,
        }
    }
}

/// The verdicts that actions tell of.
pub open spec fn verdicts(actions: Seq<ActionModel>) -> Seq<VerdictModel>
    decreases actions.len(),
{
    if actions.len() == 0 {
        Seq::empty()
    } else {
        let head = verdicts(actions.drop_last());
        match actions.last() {
            ActionModel::Patch(v) => head.push(v),
            _ => head,
        }
    }
}

/// The verdicts that actions count, by their names.
pub open spec fn counted(actions: Seq<ActionModel>) -> Seq<Seq<char>>
    decreases actions.len(),
{
    if actions.len() == 0 {
        Seq::empty()
    } else {
        let head = counted(actions.drop_last());
        match actions.last() {
            ActionModel::Count { metric, rack, verdict } => head.push(verdict),
            _ => head,
        }
    }
}

proof fn lemma_actions_join(a: Seq<ActionModel>, b: Seq<ActionModel>)
    ensures
        deleted(a + b) == deleted(a).add(deleted(b)),
        verdicts(a + b) == verdicts(a) + verdicts(b),
        counted(a + b) == counted(a) + counted(b),
    decreases b.len(),
{
    if b.len() == 0 {
        assert(a + b =~= a);
        assert(deleted(a).add(deleted(b)) =~= deleted(a));
        assert(verdicts(a) + verdicts(b) =~= verdicts(a));
        assert(counted(a) + counted(b) =~= counted(a));
    } else {
        lemma_actions_join(a, b.drop_last());
        assert((a + b).drop_last() =~= a + b.drop_last());
        assert((a + b).last() == b.last());
        assert(deleted(a + b) =~= deleted(a).add(deleted(b)));
        assert(verdicts(a + b) =~= verdicts(a) + verdicts(b));
        assert(counted(a + b) =~= counted(a) + counted(b));
    }
}

proof fn lemma_one_action(a: ActionModel)
    ensures
        deleted(seq![a]) == match a {
            ActionModel::DeletePod(p) => Multiset::singleton(p),
            _ => Multiset::empty(),
        },
        verdicts(seq![a]) == match a {
            ActionModel::Patch(v) => seq![v],
            _ => Seq::empty(),
        },
        counted(seq![a]) == match a {
            ActionModel::Count { metric, rack, verdict } => seq![verdict],
            _ => Seq::empty(),
        },
{
    let s = seq![a];
    assert(s.drop_last() =~= Seq::empty());
    assert(deleted(s.drop_last()) == Multiset::<Seq<char>>::empty());
    assert(verdicts(s.drop_last()) == Seq::<VerdictModel>::empty());
    assert(counted(s.drop_last()) == Seq::<Seq<char>>::empty());
    match a {
        ActionModel::DeletePod(p) => {
            assert(deleted(s) =~= Multiset::singleton(p));
        },
        ActionModel::Patch(v) => {
            assert(verdicts(s) =~= seq![v]);
        },
        ActionModel::Count { metric, rack, verdict } => {
            assert(counted(s) =~= seq![verdict]);
        },
        _ => {},
    }
}

proof fn lemma_two_actions(a: ActionModel, b: ActionModel)
    ensures
        deleted(seq![a, b]) == deleted(seq![a]).add(deleted(seq![b])),
        verdicts(seq![a, b]) == verdicts(seq![a]) + verdicts(seq![b]),
        counted(seq![a, b]) == counted(seq![a]) + counted(seq![b]),
{
    assert(seq![a, b] =~= seq![a] + seq![b]);
    lemma_actions_join(seq![a], seq![b]);
    lemma_one_action(a);
    lemma_one_action(b);
}

/// What a probe that is told of does, besides deleting pods.
spec fn told_once(actions: Seq<ActionModel>) -> bool {
    &&& verdicts(actions).len() == 1
    &&& counted(actions) == seq![annotations::label_of(verdicts(actions)[0])]
}

proof fn lemma_told(p: Probe, verdict: VerdictModel)
    ensures
        deleted(p.told(verdict)) == Multiset::<Seq<char>>::empty(),
        told_once(p.told(verdict)),
{
    let t = p.told(verdict);
    lemma_one_action(t[0]);
    lemma_one_action(t[1]);
    lemma_two_actions(t[0], t[1]);
    assert(t =~= seq![t[0], t[1]]);
    assert(deleted(t) =~= Multiset::empty());
    assert(verdicts(t) =~= seq![verdict]);
    assert(counted(t) =~= seq![annotations::label_of(verdict)]);
}

proof fn lemma_given_up(p: Probe, pods: Seq<Seq<char>>, message: Seq<char>)
    ensures
        deleted(p.given_up(pods, message).1) == pods.to_multiset(),
        told_once(p.given_up(pods, message).1),
{
    let told = p.told(VerdictModel::Fail(message));
    let deletes = pods.map_values(|q: Seq<char>| ActionModel::DeletePod(q));
    lemma_told(p, VerdictModel::Fail(message));
    lemma_deletes(pods);
    lemma_actions_join(deletes, told);
    assert(deleted(deletes + told) =~= pods.to_multiset());
    assert(verdicts(deletes + told) =~= verdicts(told));
    assert(counted(deletes + told) =~= counted(told));
}

proof fn lemma_deletes(pods: Seq<Seq<char>>)
    ensures
        ({
            let deletes = pods.map_values(|q: Seq<char>| ActionModel::DeletePod(q));
            &&& deleted(deletes) == pods.to_multiset()
            &&& verdicts(deletes) == Seq::<VerdictModel>::empty()
            &&& counted(deletes) == Seq::<Seq<char>>::empty()
        }),
    decreases pods.len(),
{
    broadcast use vstd::seq_lib::group_to_multiset_ensures;

    let deletes = pods.map_values(|q: Seq<char>| ActionModel::DeletePod(q));
    if pods.len() == 0 {
        assert(pods.to_multiset() =~= Multiset::empty());
    } else {
        let head = pods.drop_last();
        lemma_deletes(head);
        assert(deletes.drop_last() =~= head.map_values(|q: Seq<char>| ActionModel::DeletePod(q)));
        assert(pods =~= head.push(pods.last()));
        assert(deleted(deletes) =~= pods.to_multiset());
    }
}

proof fn lemma_concluded(p: Probe, server: Seq<char>, client: Seq<char>, verdict: VerdictModel)
    ensures
        deleted(p.concluded(server, client, verdict).1) == Multiset::singleton(server).add(
            Multiset::singleton(client),
        ),
        told_once(p.concluded(server, client, verdict).1),
{
    let told = p.told(verdict);
    let (a, b) = (ActionModel::DeletePod(client), ActionModel::DeletePod(server));
    lemma_told(p, verdict);
    lemma_one_action(a);
    lemma_one_action(b);
    lemma_two_actions(a, b);
    lemma_actions_join(told, seq![a, b]);
    let all = told + seq![a, b];
    assert(deleted(all) =~= Multiset::singleton(server).add(Multiset::singleton(client)));
    assert(verdicts(all) =~= verdicts(told));
    assert(counted(all) =~= counted(told));
}

proof fn lemma_names(names: Seq<Seq<char>>)
    ensures
        names.len() == 0 ==> names.to_multiset() == Multiset::<Seq<char>>::empty(),
        names.len() == 1 ==> names.to_multiset() == Multiset::singleton(names[0]),
        names.len() == 2 ==> names.to_multiset() == Multiset::singleton(names[0]).add(
            Multiset::singleton(names[1]),
        ),
{
    broadcast use vstd::seq_lib::group_to_multiset_ensures;

    let none = Seq::<Seq<char>>::empty();
    assert(none.to_multiset() =~= Multiset::empty());
    if names.len() == 0 {
        assert(names =~= none);
    } else if names.len() == 1 {
        assert(names =~= none.push(names[0]));
        assert(names.to_multiset() =~= Multiset::singleton(names[0]));
    } else if names.len() == 2 {
        assert(names =~= none.push(names[0]).push(names[1]));
        assert(names.to_multiset() =~= Multiset::singleton(names[0]).add(Multiset::singleton(names[1])));
    }
}

/// No step loses a pod: what stood before it and what was made for it stands
/// after it or is deleted by it.
pub proof fn law_step_accounts_for_pods(p: Probe, stage: StageModel, event: EventModel)
    ensures
        standing(stage).add(made(stage, event)) == standing(p.stepped(stage, event).0).add(
            deleted(p.stepped(stage, event).1),
        ),
{
    lemma_step(p, stage, event);
}

/// What a step does to pods and verdicts.
proof fn lemma_step(p: Probe, stage: StageModel, event: EventModel)
    ensures
        ({
            let (after, actions) = p.stepped(stage, event);
            &&& standing(stage).add(made(stage, event)) == standing(after).add(deleted(actions))
            &&& if stage !is Finished && after is Finished {
                told_once(actions)
            } else {
                verdicts(actions).len() == 0 && counted(actions).len() == 0
            }
        }),
{
    let (after, actions) = p.stepped(stage, event);
    match stage {
        StageModel::CreatingServer => {
            lemma_names(Seq::empty());
            match event {
                EventModel::Unbuilt(e) => {
                    lemma_given_up(p, Seq::empty(), "build server pod: "@ + e);
                },
                EventModel::Created(Err(e)) => {
                    lemma_given_up(p, Seq::empty(), "create server pod: "@ + e);
                },
                _ => {},
            }
        },
        StageModel::AwaitingIp(server) => {
            lemma_names(seq![server]);
            match event {
                EventModel::Ip(Ok(ip)) => {
                    lemma_given_up(
                        p,
                        seq![server],
                        "build client pod: "@ + "probe_image (set ACCELRD_PROBER_PROBE_IMAGE)"@,
                    );
                },
                EventModel::Ip(Err(e)) => {
                    lemma_given_up(p, seq![server], "server pod IP: "@ + e);
                },
                _ => {},
            }
        },
        StageModel::CreatingClient(server) => {
            lemma_names(seq![server]);
            match event {
                EventModel::Unbuilt(e) => {
                    lemma_given_up(p, seq![server], "build client pod: "@ + e);
                },
                EventModel::Created(Err(e)) => {
                    lemma_given_up(p, seq![server], "create client pod: "@ + e);
                },
                _ => {},
            }
        },
        StageModel::Running(server, client) => {
            lemma_names(seq![server, client]);
            match event {
                EventModel::Ended(Ok(Phase::Failed)) => {
                    lemma_concluded(p, server, client, VerdictModel::Fail("client pod phase Failed"@));
                },
                EventModel::Ended(Ok(Phase::Timeout)) => {
                    lemma_concluded(p, server, client, VerdictModel::Timeout);
                },
                EventModel::Ended(Err(e)) => {
                    lemma_given_up(p, seq![server, client], "watch client pod: "@ + e);
                },
                _ => {},
            }
        },
        StageModel::Reading(server, client) => {
            match event {
                EventModel::Record(Ok(verdict)) => {
                    lemma_concluded(p, server, client, verdict);
                },
                EventModel::Record(Err(e)) => {
                    lemma_concluded(p, server, client, VerdictModel::Fail("read client pod: "@ + e));
                },
                _ => {},
            }
        },
        StageModel::Finished => {},
    }
    if after !is Finished && actions.len() == 1 {
        lemma_one_action(actions[0]);
        assert(actions =~= seq![actions[0]]);
    }
    assert(standing(stage).add(made(stage, event)) =~= standing(after).add(deleted(actions)));
}

/// A probe from its start through the given events.
pub open spec fn course(p: Probe, events: Seq<EventModel>) -> StepModel
    decreases events.len(),
{
    if events.len() == 0 {
        p.started()
    } else {
        let (stage, actions) = course(p, events.drop_last());
        let (after, more) = p.stepped(stage, events.last());
        (after, actions + more)
    }
}

/// The pods that the events tell were made for the probe.
pub open spec fn made_in(p: Probe, events: Seq<EventModel>) -> Multiset<Seq<char>>
    decreases events.len(),
{
    if events.len() == 0 {
        Multiset::empty()
    } else {
        made_in(p, events.drop_last()).add(
            made(course(p, events.drop_last()).0, events.last()),
        )
    }
}

/// Whatever happens, a probe that is over has deleted each pod that was made
/// for it, and no other; before that it has deleted none of those that
/// stand.
pub proof fn law_every_pod_is_deleted(p: Probe, events: Seq<EventModel>)
    ensures
        made_in(p, events) == standing(course(p, events).0).add(deleted(course(p, events).1)),
        course(p, events).0 is Finished ==> deleted(course(p, events).1) == made_in(p, events),
    decreases events.len(),
{
    let (after, all) = course(p, events);
    if events.len() == 0 {
        lemma_start(p);
    } else {
        let head = events.drop_last();
        let (stage, actions) = course(p, head);
        let (_, more) = p.stepped(stage, events.last());
        law_every_pod_is_deleted(p, head);
        lemma_step(p, stage, events.last());
        lemma_actions_join(actions, more);
        let fresh = made(stage, events.last());
        assert(made_in(p, events) == standing(stage).add(deleted(actions)).add(fresh));
        assert(standing(stage).add(deleted(actions)).add(fresh) =~= standing(stage).add(fresh).add(
            deleted(actions),
        ));
        assert(standing(after).add(deleted(more)).add(deleted(actions)) =~= standing(after).add(
            deleted(actions).add(deleted(more)),
        ));
    }
    assert(made_in(p, events) =~= standing(after).add(deleted(all)));
    if after is Finished {
        assert(deleted(all) =~= made_in(p, events));
    }
}

proof fn lemma_start(p: Probe)
    ensures
        ({
            let (stage, actions) = p.started();
            &&& standing(stage).add(deleted(actions)) =~= Multiset::empty()
            &&& if stage is Finished {
                told_once(actions)
            } else {
                verdicts(actions).len() == 0 && counted(actions).len() == 0
            }
        }),
{
    let (stage, actions) = p.started();
    lemma_names(Seq::empty());
    lemma_given_up(
        p,
        Seq::empty(),
        "build server pod: "@ + "probe_image (set ACCELRD_PROBER_PROBE_IMAGE)"@,
    );
    if stage !is Finished {
        lemma_one_action(actions[0]);
        assert(actions =~= seq![actions[0]]);
    }
}

/// A probe is told of once, when it is over, and never before; and it is
/// counted with the verdict that is told.
pub proof fn law_told_once_when_over(p: Probe, events: Seq<EventModel>)
    ensures
        ({
            let (stage, actions) = course(p, events);
            if stage is Finished {
                &&& verdicts(actions).len() == 1
                &&& counted(actions) == seq![annotations::label_of(verdicts(actions)[0])]
            } else {
                &&& verdicts(actions) == Seq::<VerdictModel>::empty()
                &&& counted(actions) == Seq::<Seq<char>>::empty()
            }
        }),
    decreases events.len(),
{
    let (after, all) = course(p, events);
    if events.len() == 0 {
        lemma_start(p);
    } else {
        let (stage, actions) = course(p, events.drop_last());
        let (_, more) = p.stepped(stage, events.last());
        law_told_once_when_over(p, events.drop_last());
        lemma_step(p, stage, events.last());
        lemma_actions_join(actions, more);
        if verdicts(more).len() == 0 {
            assert(verdicts(all) =~= verdicts(actions));
            assert(counted(all) =~= counted(actions));
        } else {
            assert(verdicts(all) =~= verdicts(more));
            assert(counted(all) =~= counted(more));
        }
    }
    if after !is Finished {
        assert(verdicts(all) =~= Seq::empty());
        assert(counted(all) =~= Seq::empty());
    }
}

/// The event is one that the stage waits for.
pub open spec fn fits(stage: StageModel, event: EventModel) -> bool {
    match stage {
        StageModel::CreatingServer => event is Created || event is Unbuilt,
        StageModel::AwaitingIp(_) => event is Ip,
        StageModel::CreatingClient(_) => event is Created || event is Unbuilt,
        StageModel::Running(_, _) => event is Ended,
        StageModel::Reading(_, _) => event is Record,
        StageModel::Finished => false,
    }
}

/// How many events a probe waits for at most.
pub open spec fn steps_left(stage: StageModel) -> nat {
    match stage {
        StageModel::CreatingServer => 5,
        StageModel::AwaitingIp(_) => 4,
        StageModel::CreatingClient(_) => 3,
        StageModel::Running(_, _) => 2,
        StageModel::Reading(_, _) => 1,
        StageModel::Finished => 0,
    }
}

/// Each event that a probe waits for brings it nearer to its end, so that it
/// is over after five of them; other events change nothing.
pub proof fn law_probe_comes_to_an_end(p: Probe, stage: StageModel, event: EventModel)
    ensures
        if fits(stage, event) {
            steps_left(p.stepped(stage, event).0) < steps_left(stage)
        } else {
            p.stepped(stage, event) == (stage, Seq::<ActionModel>::empty())
        },
        steps_left(stage) == 0 <==> stage is Finished,
{
}

} // verus!
