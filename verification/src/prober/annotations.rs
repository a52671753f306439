//! The annotations that tell of the last probe of a node. There are two
//! families of keys: `last-rack-*` for probes between two nodes, written to
//! both, and `last-loopback-*` for probes of a node by itself.

use crate::json;
use crate::k8s::labeler;
use crate::text;
use vstd::prelude::*;

verus! {

/// The time of the last probe between nodes.
pub const ANN_LAST_AT: &'static str = "accel-test.lunnova.dev/last-rack-at";

/// The time of the last probe of a node by itself.
pub const ANN_LB_LAST_AT: &'static str = "accel-test.lunnova.dev/last-loopback-at";

/// A family of keys.
#[derive(Debug, Clone, Copy, PartialEq, Eq, Structural)]
pub enum Family {
    Rack,
    Loopback,
}

/// What a key of a family tells.
#[derive(Debug, Clone, Copy, PartialEq, Eq, Structural)]
pub enum Fact {
    At,
    BwAvg,
    BwPeak,
    MsgRate,
    Device,
    Verdict,
    Reason,
}

/// The key of a fact.
pub open spec fn key_of(family: Family, fact: Fact) -> Seq<char> {
    match (family, fact) {
        (Family::Rack, Fact::At) => "accel-test.lunnova.dev/last-rack-at"@,
        (Family::Rack, Fact::BwAvg) => "accel-test.lunnova.dev/last-rack-bw-gbps"@,
        (Family::Rack, Fact::BwPeak) => "accel-test.lunnova.dev/last-rack-bw-peak-gbps"@,
        (Family::Rack, Fact::MsgRate) => "accel-test.lunnova.dev/last-rack-msg-rate-mpps"@,
        (Family::Rack, Fact::Device) => "accel-test.lunnova.dev/last-rack-device"@,
        (Family::Rack, Fact::Verdict) => "accel-test.lunnova.dev/last-rack-verdict"@,
        (Family::Rack, Fact::Reason) => "accel-test.lunnova.dev/last-rack-reason"@,
        (Family::Loopback, Fact::At) => "accel-test.lunnova.dev/last-loopback-at"@,
        (Family::Loopback, Fact::BwAvg) => "accel-test.lunnova.dev/last-loopback-bw-gbps"@,
        (Family::Loopback, Fact::BwPeak) => "accel-test.lunnova.dev/last-loopback-bw-peak-gbps"@,
        (Family::Loopback, Fact::MsgRate) => "accel-test.lunnova.dev/last-loopback-msg-rate-mpps"@,
        (Family::Loopback, Fact::Device) => "accel-test.lunnova.dev/last-loopback-device"@,
        (Family::Loopback, Fact::Verdict) => "accel-test.lunnova.dev/last-loopback-verdict"@,
        (Family::Loopback, Fact::Reason) => "accel-test.lunnova.dev/last-loopback-reason"@,
    }
}

/// The key of the other node of a probe.
pub open spec fn partner_key() -> Seq<char> {
    "accel-test.lunnova.dev/last-rack-partner"@
}

fn key(family: Family, fact: Fact) -> (r: &'static str)
    ensures
        r@ == key_of(family, fact),
{
    match (family, fact) {
        (Family::Rack, Fact::At) => "accel-test.lunnova.dev/last-rack-at",
        (Family::Rack, Fact::BwAvg) => "accel-test.lunnova.dev/last-rack-bw-gbps",
        (Family::Rack, Fact::BwPeak) => "accel-test.lunnova.dev/last-rack-bw-peak-gbps",
        (Family::Rack, Fact::MsgRate) => "accel-test.lunnova.dev/last-rack-msg-rate-mpps",
        (Family::Rack, Fact::Device) => "accel-test.lunnova.dev/last-rack-device",
        (Family::Rack, Fact::Verdict) => "accel-test.lunnova.dev/last-rack-verdict",
        (Family::Rack, Fact::Reason) => "accel-test.lunnova.dev/last-rack-reason",
        (Family::Loopback, Fact::At) => "accel-test.lunnova.dev/last-loopback-at",
        (Family::Loopback, Fact::BwAvg) => "accel-test.lunnova.dev/last-loopback-bw-gbps",
        (Family::Loopback, Fact::BwPeak) => "accel-test.lunnova.dev/last-loopback-bw-peak-gbps",
        (Family::Loopback, Fact::MsgRate) => "accel-test.lunnova.dev/last-loopback-msg-rate-mpps",
        (Family::Loopback, Fact::Device) => "accel-test.lunnova.dev/last-loopback-device",
        (Family::Loopback, Fact::Verdict) => "accel-test.lunnova.dev/last-loopback-verdict",
        (Family::Loopback, Fact::Reason) => "accel-test.lunnova.dev/last-loopback-reason",
    }
}

/// What a probe measured, as shown to people.
#[derive(Debug)]
pub struct Figures {
    pub device: String,
    /// Gigabits per second, with two decimals.
    pub bw_avg: Option<String>,
    pub bw_peak: Option<String>,
    /// Millions of messages per second, with six decimals.
    pub msg_rate: Option<String>,
}

/// The model of what a probe measured.
#[verifier::ext_equal]
pub struct FiguresModel {
    pub device: Seq<char>,
    pub bw_avg: Option<Seq<char>>,
    pub bw_peak: Option<Seq<char>>,
    pub msg_rate: Option<Seq<char>>,
}

impl View for Figures {
    type V = FiguresModel;

    open spec fn view(&self) -> FiguresModel {
        FiguresModel {
            device: self.device@,
            bw_avg: text::opt_text(self.bw_avg),
            bw_peak: text::opt_text(self.bw_peak),
            msg_rate: text::opt_text(self.msg_rate),
        }
    }
}

/// What a probe came to.
#[derive(Debug)]
pub enum Verdict {
    Passed(Figures),
    Fail(String),
    Timeout,
}

/// The model of a verdict.
pub enum VerdictModel {
    Passed(FiguresModel),
    Fail(Seq<char>),
    Timeout,
}

impl View for Verdict {
    type V = VerdictModel;

    open spec fn view(&self) -> VerdictModel {
        match self {
            Verdict::Passed(f) => VerdictModel::Passed(f@),
            Verdict::Fail(s) => VerdictModel::Fail(s@),
            Verdict::Timeout => VerdictModel::Timeout,
        }
    }
}

/// The verdict's name in metrics and annotations.
pub open spec fn label_of(v: VerdictModel) -> Seq<char> {
    match v {
        VerdictModel::Passed(_) => "ok"@,
        VerdictModel::Fail(_) => "fail"@,
        VerdictModel::Timeout => "timeout"@,
    }
}

impl Verdict {
    /// The verdict's name in metrics and annotations.
    pub fn label(&self) -> (r: &'static str)
        ensures
            r@ == label_of(self@),
    {
        match self {
            Verdict::Passed(_) => "ok",
            Verdict::Fail(_) => "fail",
            Verdict::Timeout => "timeout",
        }
    }
}

/// The members of an annotation patch.
pub type Members = Map<Seq<char>, Option<Seq<char>>>;

/// One more member, where there is a value for it.
pub open spec fn with_value(m: Members, key: Seq<char>, value: Option<Seq<char>>) -> Members {
    match value {
        Some(v) => m.insert(key, Some(v)),
        None => m,
    }
}

/// The members with the measured figures taken away.
pub open spec fn without_figures(m: Members, family: Family) -> Members {
    m.insert(key_of(family, Fact::BwAvg), None).insert(key_of(family, Fact::BwPeak), None).insert(
        key_of(family, Fact::MsgRate),
        None,
    )
}

/// The annotation patch that tells of a probe: when, with whom, what came
/// of it. A reason from before goes away with a success, and figures from
/// before go away with a failure.
pub open spec fn body_of(
    family: Family,
    partner: Option<Seq<char>>,
    now: Seq<char>,
    verdict: VerdictModel,
) -> Members {
    let at = Map::empty().insert(key_of(family, Fact::At), Some(now));
    let head = if family == Family::Rack {
        with_value(at, partner_key(), partner)
    } else {
        at
    };
    let judged = head.insert(key_of(family, Fact::Verdict), Some(label_of(verdict)));
    match verdict {
        VerdictModel::Passed(f) => with_value(
            with_value(
                with_value(
                    judged.insert(key_of(family, Fact::Reason), None).insert(
                        key_of(family, Fact::Device),
                        Some(f.device),
                    ),
                    key_of(family, Fact::BwAvg),
                    f.bw_avg,
                ),
                key_of(family, Fact::BwPeak),
                f.bw_peak,
            ),
            key_of(family, Fact::MsgRate),
            f.msg_rate,
        ),
        VerdictModel::Fail(reason) => without_figures(
            judged.insert(key_of(family, Fact::Reason), Some(reason)),
            family,
        ),
        VerdictModel::Timeout => without_figures(
            judged.insert(
                key_of(family, Fact::Reason),
                Some("probe pod did not terminate before timeout"@),
            ),
            family,
        ),
    }
}

fn set_text(m: &mut serde_json::Map<String, serde_json::Value>, key: &str, value: &str)
    ensures
        json::json_members(*final(m)) == json::json_members(*old(m)).insert(key@, Some(value@)),
{
    json::set_member(m, key.to_owned(), Some(value.to_owned()));
}

fn set_null(m: &mut serde_json::Map<String, serde_json::Value>, key: &str)
    ensures
        json::json_members(*final(m)) == json::json_members(*old(m)).insert(key@, None),
{
    json::set_member(m, key.to_owned(), None);
}

fn set_opt(m: &mut serde_json::Map<String, serde_json::Value>, key: &str, value: &Option<String>)
    ensures
        json::json_members(*final(m)) == with_value(
            json::json_members(*old(m)),
            key@,
            text::opt_text(*value),
        ),
{
    match value {
        Some(v) => {
            set_text(m, key, v.as_str());
        },
        None => {},
    }
}

fn clear_figures(m: &mut serde_json::Map<String, serde_json::Value>, family: Family)
    ensures
        json::json_members(*final(m)) == without_figures(json::json_members(*old(m)), family),
{
    set_null(m, key(family, Fact::BwAvg));
    set_null(m, key(family, Fact::BwPeak));
    set_null(m, key(family, Fact::MsgRate));
}

/// The annotations under `metadata` of the patch that tells of a probe.
pub fn build_body(
    family: Family,
    partner: Option<&str>,
    now: &str,
    verdict: &Verdict,
) -> (r: serde_json::Map<String, serde_json::Value>)
    ensures
        json::json_members(r) == body_of(family, text::opt_str(partner), now@, verdict@),
{
    let mut m = json::new_object();
    set_text(&mut m, key(family, Fact::At), now);
    match (family, partner) {
        (Family::Rack, Some(p)) => {
            set_text(&mut m, "accel-test.lunnova.dev/last-rack-partner", p);
        },
        _ => {},
    }
    set_text(&mut m, key(family, Fact::Verdict), verdict.label());
    match verdict {
        Verdict::Passed(f) => {
            set_null(&mut m, key(family, Fact::Reason));
            set_text(&mut m, key(family, Fact::Device), f.device.as_str());
            set_opt(&mut m, key(family, Fact::BwAvg), &f.bw_avg);
            set_opt(&mut m, key(family, Fact::BwPeak), &f.bw_peak);
            set_opt(&mut m, key(family, Fact::MsgRate), &f.msg_rate);
        },
        Verdict::Fail(reason) => {
            set_text(&mut m, key(family, Fact::Reason), reason.as_str());
            clear_figures(&mut m, family);
        },
        Verdict::Timeout => {
            set_text(&mut m, key(family, Fact::Reason), "probe pod did not terminate before timeout");
            clear_figures(&mut m, family);
        },
    }
    m
}

/// The annotation patch of one node.
pub struct NodePatch {
    pub node: String,
    pub annotations: serde_json::Map<String, serde_json::Value>,
}

/// The patches that tell both nodes of a probe between them.
pub fn patch_pair(a: &str, b: &str, now: &str, verdict: &Verdict) -> (r: Vec<NodePatch>)
    ensures
        r@.len() == 2,
        r@[0].node@ == a@,
        json::json_members(r@[0].annotations) == body_of(Family::Rack, Some(b@), now@, verdict@),
        r@[1].node@ == b@,
        json::json_members(r@[1].annotations) == body_of(Family::Rack, Some(a@), now@, verdict@),
{
    let mut out: Vec<NodePatch> = Vec::new();
    out.push(
        NodePatch { node: a.to_owned(), annotations: build_body(Family::Rack, Some(b), now, verdict) },
    );
    out.push(
        NodePatch { node: b.to_owned(), annotations: build_body(Family::Rack, Some(a), now, verdict) },
    );
    out
}

/// The patch that tells a node of a probe of it by itself.
pub fn patch_loopback(node: &str, now: &str, verdict: &Verdict) -> (r: Vec<NodePatch>)
    ensures
        r@.len() == 1,
        r@[0].node@ == node@,
        json::json_members(r@[0].annotations) == body_of(Family::Loopback, None, now@, verdict@),
{
    let mut out: Vec<NodePatch> = Vec::new();
    out.push(
        NodePatch {
            node: node.to_owned(),
            annotations: build_body(Family::Loopback, None, now, verdict),
        },
    );
    out
}

/// The keys of a family differ from each other, and from that of the
/// partner.
pub proof fn lemma_keys_differ(family: Family)
    ensures
        forall|a: Fact, b: Fact| a != b ==> #[trigger] key_of(family, a) != #[trigger] key_of(family, b),
        forall|a: Fact| #[trigger] key_of(family, a) != partner_key(),
{
    reveal_strlit("accel-test.lunnova.dev/last-rack-at");
    reveal_strlit("accel-test.lunnova.dev/last-rack-bw-gbps");
    reveal_strlit("accel-test.lunnova.dev/last-rack-bw-peak-gbps");
    reveal_strlit("accel-test.lunnova.dev/last-rack-msg-rate-mpps");
    reveal_strlit("accel-test.lunnova.dev/last-rack-device");
    reveal_strlit("accel-test.lunnova.dev/last-rack-verdict");
    reveal_strlit("accel-test.lunnova.dev/last-rack-reason");
    reveal_strlit("accel-test.lunnova.dev/last-loopback-at");
    reveal_strlit("accel-test.lunnova.dev/last-loopback-bw-gbps");
    reveal_strlit("accel-test.lunnova.dev/last-loopback-bw-peak-gbps");
    reveal_strlit("accel-test.lunnova.dev/last-loopback-msg-rate-mpps");
    reveal_strlit("accel-test.lunnova.dev/last-loopback-device");
    reveal_strlit("accel-test.lunnova.dev/last-loopback-verdict");
    reveal_strlit("accel-test.lunnova.dev/last-loopback-reason");
    reveal_strlit("accel-test.lunnova.dev/last-rack-partner");
    let n: int = match family {
        Family::Rack => 33,
        Family::Loopback => 37,
    };
    assert forall|a: Fact, b: Fact| a != b implies #[trigger] key_of(family, a) != #[trigger] key_of(family, b) by {
        let (x, y) = (key_of(family, a), key_of(family, b));
        assert(x.len() != y.len() || x[n] != y[n]);
    }
    assert forall|a: Fact| #[trigger] key_of(family, a) != partner_key() by {
        let (x, y) = (key_of(family, a), partner_key());
        assert(x.len() != y.len() || x[33] != y[33]);
    }
}

/// A key that is neither of the family nor that of the partner is not told.
pub proof fn lemma_other_key(
    family: Family,
    partner: Option<Seq<char>>,
    now: Seq<char>,
    verdict: VerdictModel,
    key: Seq<char>,
)
    requires
        forall|f: Fact| #[trigger] key_of(family, f) != key,
        key != partner_key(),
    ensures
        !body_of(family, partner, now, verdict).contains_key(key),
{
}

/// The long name of the bandwidth is no key that a probe is told under.
pub proof fn lemma_long_name()
    ensures
        forall|f: Fact| #[trigger] key_of(Family::Rack, f) != "accel-test.lunnova.dev/last-rack-bandwidth-gbps"@,
        partner_key() != "accel-test.lunnova.dev/last-rack-bandwidth-gbps"@,
{
    reveal_strlit("accel-test.lunnova.dev/last-rack-bandwidth-gbps");
    reveal_strlit("accel-test.lunnova.dev/last-rack-at");
    reveal_strlit("accel-test.lunnova.dev/last-rack-bw-gbps");
    reveal_strlit("accel-test.lunnova.dev/last-rack-bw-peak-gbps");
    reveal_strlit("accel-test.lunnova.dev/last-rack-msg-rate-mpps");
    reveal_strlit("accel-test.lunnova.dev/last-rack-device");
    reveal_strlit("accel-test.lunnova.dev/last-rack-verdict");
    reveal_strlit("accel-test.lunnova.dev/last-rack-reason");
    reveal_strlit("accel-test.lunnova.dev/last-rack-partner");
    let long = "accel-test.lunnova.dev/last-rack-bandwidth-gbps"@;
    assert forall|f: Fact| #[trigger] key_of(Family::Rack, f) != long by {
        let x = key_of(Family::Rack, f);
        assert(x.len() != long.len() || x[33] != long[33] || x[34] != long[34]);
    }
    assert(partner_key()[33] != long[33]);
}

/// A node that is told of a probe carries its time and its verdict. After a
/// success there is no reason left from before, and after anything else
/// there are no figures left from before.
pub proof fn law_told_node_carries_verdict(
    current: Map<Seq<char>, Seq<char>>,
    family: Family,
    partner: Option<Seq<char>>,
    now: Seq<char>,
    verdict: VerdictModel,
)
    ensures
        ({
            let after = labeler::patched(current, body_of(family, partner, now, verdict));
            &&& carries(after, key_of(family, Fact::At), now)
            &&& carries(after, key_of(family, Fact::Verdict), label_of(verdict))
            &&& family == Family::Rack && partner is Some ==> carries(after, partner_key(), partner->0)
            &&& match verdict {
                VerdictModel::Passed(f) => {
                    &&& !after.contains_key(key_of(family, Fact::Reason))
                    &&& carries(after, key_of(family, Fact::Device), f.device)
                    &&& f.bw_avg is Some ==> carries(after, key_of(family, Fact::BwAvg), f.bw_avg->0)
                    &&& f.bw_peak is Some ==> carries(after, key_of(family, Fact::BwPeak), f.bw_peak->0)
                    &&& f.msg_rate is Some ==> carries(after, key_of(family, Fact::MsgRate), f.msg_rate->0)
                },
                _ => {
                    &&& after.contains_key(key_of(family, Fact::Reason))
                    &&& !after.contains_key(key_of(family, Fact::BwAvg))
                    &&& !after.contains_key(key_of(family, Fact::BwPeak))
                    &&& !after.contains_key(key_of(family, Fact::MsgRate))
                },
            }
        }),
{
    lemma_keys_differ(family);
}

/// The map holds the value at the key.
pub open spec fn carries(m: Map<Seq<char>, Seq<char>>, key: Seq<char>, value: Seq<char>) -> bool {
    m.contains_key(key) && m[key] == value
}

} // verus!
