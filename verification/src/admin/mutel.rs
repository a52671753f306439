//! The queries to the telemetry store, and what its answers say. Only a
//! small part of its interface is needed: the list of metrics, one metric
//! with filters and groups, and the latest logs.

use crate::number;
use crate::scan;
use crate::scan::CharClass;
use crate::text;
use crate::textmap::TextMap;
use vstd::prelude::*;
use vstd::utf8;

verus! {

// ---------------------------------------------------------------------
// Addresses
// ---------------------------------------------------------------------

/// A byte that stands for itself in an address: a letter, a digit, or one of
/// `-`, `_`, `.` and `~`.
pub open spec fn is_unreserved(b: u8) -> bool {
    ||| 0x41 <= b <= 0x5a
    ||| 0x61 <= b <= 0x7a
    ||| 0x30 <= b <= 0x39
    ||| b == 0x2d
    ||| b == 0x5f
    ||| b == 0x2e
    ||| b == 0x7e
}

/// The character of an upper-case hexadecimal digit.
pub open spec fn upper_hex(d: nat) -> char {
    if d < 10 {
        (0x30 + d) as char
    } else {
        (0x41 + d - 10) as char
    }
}

/// A byte in an address.
pub open spec fn encoded_byte(b: u8) -> Seq<char> {
    if is_unreserved(b) {
        seq![b as char]
    } else {
        seq!['%', upper_hex(b as nat / 16), upper_hex(b as nat % 16)]
    }
}

/// Bytes in an address.
pub open spec fn encoded(bytes: Seq<u8>) -> Seq<char>
    decreases bytes.len(),
{
    if bytes.len() == 0 {
        Seq::empty()
    } else {
        encoded(bytes.drop_last()) + encoded_byte(bytes.last())
    }
}

fn hex_digit(d: u8) -> (r: char)
    requires
        d < 16,
    ensures
        r == upper_hex(d as nat),
{
    if d < 10 {
        (0x30 + d) as char
    } else {
        (0x41 + (d - 10)) as char
    }
}

/// A text as part of the path of an address.
pub fn urlencode(s: &str) -> (r: String)
    ensures
        r@ == encoded(utf8::encode_utf8(s@)),
{
    let bytes = s.as_bytes();
    let ghost all = utf8::encode_utf8(s@);
    let mut out = String::new();
    let mut i: usize = 0;
    assert(out@ =~= encoded(all.take(0)));
    while i < bytes.len()
        invariant
            i <= bytes@.len(),
            bytes@ == all,
            out@ == encoded(all.take(i as int)),
        decreases bytes@.len() - i,
    {
        let b: u8 = bytes[i];
        let ghost before = out@;
        proof {
            let t = all.take(i + 1);
            assert(t.drop_last() =~= all.take(i as int));
            assert(t.last() == b);
        }
        if (0x41 <= b && b <= 0x5a) || (0x61 <= b && b <= 0x7a) || (0x30 <= b && b <= 0x39) || b == 0x2d || b
            == 0x5f || b == 0x2e || b == 0x7e {
            out.push(b as char);
            assert(out@ =~= before + encoded_byte(b));
        } else {
            out.push('%');
            out.push(hex_digit(b / 16));
            out.push(hex_digit(b % 16));
            assert(out@ =~= before + encoded_byte(b));
        }
        i = i + 1;
    }
    assert(all.take(all.len() as int) =~= all);
    out
}

/// The value of an upper-case hexadecimal digit.
pub open spec fn upper_value(c: char) -> nat {
    if c <= '9' {
        (c as int - 0x30) as nat
    } else {
        (c as int - 0x41 + 10) as nat
    }
}

/// The bytes that a part of an address stands for.
pub open spec fn decoded(s: Seq<char>) -> Seq<u8>
    decreases s.len(),
{
    if s.len() == 0 {
        Seq::empty()
    } else if s[0] == '%' && s.len() >= 3 {
        seq![(upper_value(s[1]) * 16 + upper_value(s[2])) as u8] + decoded(s.skip(3))
    } else {
        seq![s[0] as u8] + decoded(s.skip(1))
    }
}

proof fn lemma_decoded_byte(b: u8, rest: Seq<char>)
    ensures
        decoded(encoded_byte(b) + rest) == seq![b] + decoded(rest),
{
    let s = encoded_byte(b) + rest;
    if is_unreserved(b) {
        assert(s[0] == b as char);
        assert(s[0] != '%');
        assert(s.skip(1) =~= rest);
        assert(s[0] as u8 == b);
    } else {
        assert(s[0] == '%' && s.len() >= 3);
        assert(s.skip(3) =~= rest);
        let (hi, lo) = (b as nat / 16, b as nat % 16);
        assert(s[1] == upper_hex(hi) && s[2] == upper_hex(lo));
        assert(upper_value(upper_hex(hi)) == hi);
        assert(upper_value(upper_hex(lo)) == lo);
        assert(hi * 16 + lo == b);
    }
}

proof fn lemma_decoded_more(bytes: Seq<u8>, rest: Seq<char>)
    ensures
        decoded(encoded(bytes) + rest) == bytes + decoded(rest),
    decreases bytes.len(),
{
    if bytes.len() == 0 {
        assert(encoded(bytes) + rest =~= rest);
        assert(bytes + decoded(rest) =~= decoded(rest));
    } else {
        let b = bytes.last();
        let tail = encoded_byte(b) + rest;
        lemma_decoded_more(bytes.drop_last(), tail);
        lemma_decoded_byte(b, rest);
        assert(encoded(bytes) + rest =~= encoded(bytes.drop_last()) + tail);
        assert(bytes + decoded(rest) =~= bytes.drop_last() + (seq![b] + decoded(rest)));
    }
}

/// Nothing of a name is lost in an address: decoding it gives its bytes
/// back.
pub proof fn law_address_keeps_name(bytes: Seq<u8>)
    ensures
        decoded(encoded(bytes)) == bytes,
{
    lemma_decoded_more(bytes, Seq::empty());
    assert(encoded(bytes) + Seq::<char>::empty() =~= encoded(bytes));
    assert(bytes + decoded(Seq::empty()) =~= bytes);
}

/// A character that may stand in the path of an address.
pub open spec fn is_safe_char(c: char) -> bool {
    c == '%' || ((c as int) < 0x80 && is_unreserved(c as u8))
}

/// What an address is made of is safe in it, so that a name stays one part
/// of the path.
pub proof fn law_address_is_safe(bytes: Seq<u8>, i: int)
    requires
        0 <= i < encoded(bytes).len(),
    ensures
        is_safe_char(encoded(bytes)[i]),
    decreases bytes.len(),
{
    let head = encoded(bytes.drop_last());
    if i < head.len() {
        law_address_is_safe(bytes.drop_last(), i);
    } else {
        let b = bytes.last();
        let e = encoded_byte(b);
        assert(encoded(bytes)[i] == e[i - head.len()]);
        if is_unreserved(b) {
            assert((b as char) as u8 == b);
        } else {
            let (hi, lo) = (b as nat / 16, b as nat % 16);
            assert(hi < 16 && lo < 16);
            assert(is_safe_char(upper_hex(hi)));
            assert(is_safe_char(upper_hex(lo)));
        }
    }
}

/// The telemetry store, by its base address.
#[derive(Debug)]
pub struct MutelClient {
    base: String,
}

/// An address without the slashes at its end.
pub open spec fn base_of(address: Seq<char>) -> Seq<char> {
    scan::drop_trailing(address, CharClass::One('/'))
}

impl MutelClient {
    /// The base address.
    pub closed spec fn address(self) -> Seq<char> {
        self.base@
    }

    /// The store at the given address.
    pub fn new(base: &str) -> (r: Self)
        ensures
            r.address() == base_of(base@),
    {
        MutelClient { base: scan::trim_end_of(base, CharClass::One('/')) }
    }

    /// The base address.
    pub fn base(&self) -> (r: &str)
        ensures
            r@ == self.address(),
    {
        self.base.as_str()
    }

    /// The address of the list of metrics.
    pub fn list_metrics(&self) -> (r: String)
        ensures
            r@ == self.address() + "/api/metrics"@,
    {
        text::join2(self.base.as_str(), "/api/metrics")
    }

    /// The address of the metric with the given name.
    pub fn query_metric(&self, name: &str) -> (r: String)
        ensures
            r@ == self.address() + "/api/metrics/"@ + encoded(utf8::encode_utf8(name@)),
    {
        text::join3(self.base.as_str(), "/api/metrics/", urlencode(name).as_str())
    }

    /// The address of the latest logs.
    pub fn recent_logs(&self) -> (r: String)
        ensures
            r@ == self.address() + "/api/logs/recent"@,
    {
        text::join2(self.base.as_str(), "/api/logs/recent")
    }

    /// The address that tells whether the store is there. The list of
    /// metrics is the cheapest answer that it gives.
    pub fn ping(&self) -> (r: String)
        ensures
            r@ == self.address() + "/api/metrics"@,
    {
        self.list_metrics()
    }
}

/// Where a query failed.
#[derive(Debug, Clone, Copy, PartialEq, Eq, Structural)]
pub enum QueryStage {
    /// No answer came.
    Send,
    /// The answer was an error.
    Status,
    /// The answer could not be read.
    Body,
}

/// What is said of a query to `url` that failed.
pub fn query_error(url: &str, stage: QueryStage) -> (r: String)
    ensures
        r@ == "GET "@ + url@ + match stage {
            QueryStage::Send => ""@,
            QueryStage::Status => " status"@,
            QueryStage::Body => " json"@,
        },
{
    match stage {
        QueryStage::Send => text::join3("GET ", url, ""),
        QueryStage::Status => text::join3("GET ", url, " status"),
        QueryStage::Body => text::join3("GET ", url, " json"),
    }
}

// ---------------------------------------------------------------------
// Parameters
// ---------------------------------------------------------------------

/// A metric in the list of metrics.
#[derive(Debug)]
pub struct MetricSummary {
    pub name: String,
    pub kind: Option<String>,
    pub unit: Option<String>,
    pub series_count: Option<u64>,
}

/// The list of metrics.
#[derive(Debug)]
pub struct MetricsList {
    pub metrics: Vec<MetricSummary>,
}

/// What is asked of a metric.
#[derive(Debug)]
pub struct MetricQueryParams {
    pub filter: Option<String>,
    pub group_by: Option<String>,
    pub agg: Option<String>,
    pub start: Option<i64>,
    pub end: Option<i64>,
    pub max_points: Option<u32>,
}

impl Default for MetricQueryParams {
    fn default() -> (r: Self)
        ensures
            r.filter is None,
            r.group_by is None,
            r.agg is None,
            r.start is None,
            r.end is None,
            r.max_points is None,
    {
        MetricQueryParams {
            filter: None,
            group_by: None,
            agg: None,
            start: None,
            end: None,
            max_points: None,
        }
    }
}

/// Parameters of a query, in their order.
pub type Pairs = Seq<(Seq<char>, Seq<char>)>;

/// The models of parameters.
pub open spec fn pair_models(v: Seq<(&'static str, String)>) -> Pairs {
    v.map_values(|p: (&'static str, String)| (p.0@, p.1@))
}

/// One more parameter, where there is a value for it.
pub open spec fn with_pair(pairs: Pairs, key: Seq<char>, value: Option<Seq<char>>) -> Pairs {
    match value {
        Some(v) => pairs.push((key, v)),
        None => pairs,
    }
}

/// The numeral of a number, where there is one.
pub open spec fn opt_numeral(n: Option<i64>) -> Option<Seq<char>> {
    match n {
        Some(v) => Some(number::signed_decimal(v as int)),
        None => None,
    }
}

/// The parameters of a query.
pub open spec fn pairs_of(p: MetricQueryParams) -> Pairs {
    with_pair(
        with_pair(
            with_pair(
                with_pair(
                    with_pair(
                        with_pair(Seq::empty(), "filter"@, text::opt_text(p.filter)),
                        "group_by"@,
                        text::opt_text(p.group_by),
                    ),
                    "agg"@,
                    text::opt_text(p.agg),
                ),
                "start"@,
                opt_numeral(p.start),
            ),
            "end"@,
            opt_numeral(p.end),
        ),
        "max_points"@,
        match p.max_points {
            Some(n) => Some(number::decimal(n as nat)),
            None => None,
        },
    )
}

fn push_pair(pairs: &mut Vec<(&'static str, String)>, key: &'static str, value: Option<String>)
    ensures
        pair_models(final(pairs)@) == with_pair(
            pair_models(old(pairs)@),
            key@,
            text::opt_text(value),
        ),
{
    match value {
        Some(v) => {
            let ghost before = pair_models(pairs@);
            let ghost m = v@;
            pairs.push((key, v));
            assert(pair_models(pairs@) =~= before.push((key@, m)));
        },
        None => {},
    }
}

fn numeral_of(n: Option<i64>) -> (r: Option<String>)
    ensures
        text::opt_text(r) == opt_numeral(n),
{
    match n {
        Some(v) => Some(number::dec_i64(v)),
        None => None,
    }
}

impl MetricQueryParams {
    /// The parameters of the query.
    pub fn to_pairs(&self) -> (r: Vec<(&'static str, String)>)
        ensures
            pair_models(r@) == pairs_of(*self),
    {
        let mut pairs: Vec<(&'static str, String)> = Vec::new();
        assert(pair_models(pairs@) =~= Seq::empty());
        push_pair(&mut pairs, "filter", text::clone_opt(&self.filter));
        push_pair(&mut pairs, "group_by", text::clone_opt(&self.group_by));
        push_pair(&mut pairs, "agg", text::clone_opt(&self.agg));
        push_pair(&mut pairs, "start", numeral_of(self.start));
        push_pair(&mut pairs, "end", numeral_of(self.end));
        let max_points = match self.max_points {
            Some(n) => Some(number::dec(n as u64)),
            None => None,
        };
        push_pair(&mut pairs, "max_points", max_points);
        pairs
    }
}

/// The start of a window of so many seconds that ends at `now`, no earlier
/// than 64-bit integers go.
pub open spec fn window_start(now: i64, window_secs: u64) -> int {
    let start = now - (window_secs as i64);
    if start < i64::MIN {
        i64::MIN as int
    } else if start > i64::MAX {
        i64::MAX as int
    } else {
        start
    }
}

/// What is asked for the latest value of a metric on each node: one point
/// per node for the whole window.
pub fn window_params(agg: &str, now: i64, window_secs: u64) -> (r: MetricQueryParams)
    ensures
        r.filter is None,
        text::opt_text(r.group_by) == Some("r:k8s.node.name"@),
        text::opt_text(r.agg) == Some(agg@),
        r.start is Some,
        r.start->0 == window_start(now, window_secs),
        r.end == Some(now),
        r.max_points == Some(1u32),
{
    let back: i64 = window_secs as i64;
    let wide: i128 = now as i128 - back as i128;
    let start: i64 = if wide < i64::MIN as i128 {
        i64::MIN
    } else if wide > i64::MAX as i128 {
        i64::MAX
    } else {
        wide as i64
    };
    MetricQueryParams {
        filter: None,
        group_by: Some("r:k8s.node.name".to_owned()),
        agg: Some(agg.to_owned()),
        start: Some(start),
        end: Some(now),
        max_points: Some(1),
    }
}

/// The number of logs to ask for: a hundred, if nothing is said, and a
/// thousand at most.
pub fn log_limit(asked: Option<u32>) -> (r: u32)
    ensures
        r == match asked {
            Some(n) => if n < 1000 {
                n
            } else {
                1000
            },
            None => 100,
        },
{
    match asked {
        Some(n) => if n < 1000 {
            n
        } else {
            1000
        },
        None => 100,
    }
}

/// The parameters of the query for the latest logs. A service is searched
/// for as a part of the log.
pub fn log_params(service: Option<&str>, limit: u32) -> (r: Vec<(&'static str, String)>)
    ensures
        pair_models(r@) == with_pair(
            seq![("limit"@, number::decimal(limit as nat))],
            "search"@,
            text::opt_str(service),
        ),
{
    let mut pairs: Vec<(&'static str, String)> = Vec::new();
    pairs.push(("limit", number::dec(limit as u64)));
    assert(pair_models(pairs@) =~= seq![("limit"@, number::decimal(limit as nat))]);
    let search = match service {
        Some(s) => Some(s.to_owned()),
        None => None,
    };
    push_pair(&mut pairs, "search", search);
    pairs
}

// ---------------------------------------------------------------------
// Answers
// ---------------------------------------------------------------------

/// A JSON value. `N` is the type of its numbers.
#[derive(Debug)]
pub enum Json<N> {
    Null,
    Flag(bool),
    /// A finite number.
    Number(N),
    /// A number that is not finite.
    NotFinite,
    Text(String),
    List(Vec<Json<N>>),
    /// The members of an object. No two have the same name.
    Object(Vec<(String, Json<N>)>),
}

/// The member of an object from place `i` on.
pub open spec fn member_from<N>(v: Seq<(String, Json<N>)>, name: Seq<char>, i: int) -> Option<Json<N>>
    decreases v.len() - i,
{
    if i < 0 || i >= v.len() {
        None
    } else if v[i].0@ == name {
        Some(v[i].1)
    } else {
        member_from(v, name, i + 1)
    }
}

/// The member of an object.
pub open spec fn member_of<N>(j: Json<N>, name: Seq<char>) -> Option<Json<N>> {
    match j {
        Json::Object(v) => member_from(v@, name, 0),
        _ => None,
    }
}

/// The node that a group of points belongs to, if it has a name.
pub open spec fn group_node<N>(g: Json<N>) -> Option<Seq<char>> {
    match member_of(g, "key"@) {
        Some(k) => match member_of(k, "r:k8s.node.name"@) {
            Some(Json::Text(s)) => if s@.len() > 0 {
                Some(s@)
            } else {
                None
            },
            _ => None,
        },
        None => None,
    }
}

/// The value of the last point of a group, if it is finite. A point is a
/// list of a time and a value.
pub open spec fn group_value<N>(g: Json<N>) -> Option<N> {
    match member_of(g, "points"@) {
        Some(Json::List(points)) => if points@.len() == 0 {
            None
        } else {
            match points@.last() {
                Json::List(point) => if point@.len() < 2 {
                    None
                } else {
                    match point@[1] {
                        Json::Number(n) => Some(n),
                        _ => None,
                    }
                },
                _ => None,
            }
        },
        _ => None,
    }
}

/// The nodes of groups with their values. Of two groups of one node the
/// later one counts.
pub open spec fn values_of<N>(groups: Seq<Json<N>>) -> Map<Seq<char>, N>
    decreases groups.len(),
{
    if groups.len() == 0 {
        Map::empty()
    } else {
        let head = values_of(groups.drop_last());
        let g = groups.last();
        match (group_node(g), group_value(g)) {
            (Some(node), Some(n)) => head.insert(node, n),
            _ => head,
        }
    }
}

/// The groups of an answer.
pub open spec fn groups_of<N>(answer: Json<N>) -> Seq<Json<N>> {
    match member_of(answer, "groups"@) {
        Some(Json::List(v)) => v@,
        _ => Seq::empty(),
    }
}

fn member_in<'a, N>(v: &'a Vec<(String, Json<N>)>, name: &str) -> (r: Option<&'a Json<N>>)
    ensures
        match r {
            Some(m) => member_from(v@, name@, 0) == Some(*m),
            None => member_from(v@, name@, 0) is None,
        },
{
    let mut i: usize = 0;
    while i < v.len()
        invariant
            i <= v@.len(),
            member_from(v@, name@, 0) == member_from(v@, name@, i as int),
        decreases v@.len() - i,
    {
        if text::same(v[i].0.as_str(), name) {
            return Some(&v[i].1);
        }
        i = i + 1;
    }
    None
}

impl<N: Copy> Json<N> {
    /// The member with the given name, of an object.
    pub fn get(&self, name: &str) -> (r: Option<&Json<N>>)
        ensures
            match r {
                Some(m) => member_of(*self, name@) == Some(*m),
                None => member_of(*self, name@) is None,
            },
    {
        match self {
            Json::Object(v) => member_in(v, name),
            _ => None,
        }
    }
}

fn node_of<N: Copy>(g: &Json<N>) -> (r: Option<String>)
    ensures
        text::opt_text(r) == group_node(*g),
{
    match g.get("key") {
        Some(k) => match k.get("r:k8s.node.name") {
            Some(Json::Text(s)) => if text::is_empty(s.as_str()) {
                None
            } else {
                Some(s.clone())
            },
            _ => None,
        },
        None => None,
    }
}

fn value_of<N: Copy>(g: &Json<N>) -> (r: Option<N>)
    ensures
        r == group_value(*g),
{
    match g.get("points") {
        Some(Json::List(points)) => if points.len() == 0 {
            None
        } else {
            match &points[points.len() - 1] {
                Json::List(point) => if point.len() < 2 {
                    None
                } else {
                    match &point[1] {
                        Json::Number(n) => Some(*n),
                        _ => None,
                    }
                },
                _ => None,
            }
        },
        _ => None,
    }
}

fn values<N: Copy>(groups: &Vec<Json<N>>) -> (r: TextMap<N>)
    ensures
        r@ == values_of(groups@),
{
    let mut out: TextMap<N> = TextMap::new();
    let mut i: usize = 0;
    while i < groups.len()
        invariant
            i <= groups@.len(),
            out@ == values_of(groups@.take(i as int)),
        decreases groups@.len() - i,
    {
        proof {
            let t = groups@.take(i + 1);
            assert(t.drop_last() =~= groups@.take(i as int));
            assert(t.last() == groups@[i as int]);
        }
        match (node_of(&groups[i]), value_of(&groups[i])) {
            (Some(node), Some(n)) => {
                out.insert(node, n);
            },
            _ => {},
        }
        i = i + 1;
    }
    assert(groups@.take(groups@.len() as int) =~= groups@);
    out
}

/// The latest value on each node that an answer tells. Nodes without a
/// finite value are not there.
pub fn latest_by_node<N: Copy>(answer: &Json<N>) -> (r: TextMap<N>)
    ensures
        r@ == values_of(groups_of(*answer)),
{
    match answer.get("groups") {
        Some(Json::List(groups)) => values(groups),
        _ => TextMap::new(),
    }
}

} // verus!
