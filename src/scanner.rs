//! Finding the counter names that the six access forms reference in source
//! text.

use vstd::prelude::*;

verus! {

/// Fetch a handle to a counter: `get_counter!(name)`.
pub const GET_COUNTER_PATTERN: &'static str = r"get_counter!\([\n]?[\s]*([\d\w]+)[)\n,]";

/// Increment a counter by a value: `increment_metric!(name, value)`.
pub const INCREMENT_METRIC_PATTERN: &'static str = r"increment_metric!\([\n]?[\s]*([\d\w]+)[)\n,]";

/// Increment a counter by one: `tick_metric!(name)`.
pub const TICK_METRIC_PATTERN: &'static str = r"tick_metric!\([\n]?[\s]*([\d\w]+)[)\n,]";

/// Set a counter to a value: `set_metric!(name, value)`.
pub const SET_METRIC_PATTERN: &'static str = r"set_metric!\([\n]?[\s]*([\d\w]+)[)\n,]";

/// Reset a counter to zero: `reset_metric!(name)`.
pub const RESET_METRIC_PATTERN: &'static str = r"reset_metric!\([\n]?[\s]*([\d\w]+)[)\n,]";

/// Load a counter's value: `load_metric!(name)`.
pub const LOAD_METRIC_PATTERN: &'static str = r"load_metric!\([\n]?[\s]*([\d\w]+)[)\n,]";

/// The recognition patterns, in the order in which they are applied.
pub open spec fn recognition_patterns() -> Seq<Seq<char>> {
    seq![
        GET_COUNTER_PATTERN@,
        INCREMENT_METRIC_PATTERN@,
        TICK_METRIC_PATTERN@,
        SET_METRIC_PATTERN@,
        RESET_METRIC_PATTERN@,
        LOAD_METRIC_PATTERN@,
    ]
}

/// What the regex engine reports for `pattern` on `text`: `None` where the
/// pattern does not compile, else for each successive match the text of its
/// first capture group, if that group took part.
pub uninterp spec fn regex_group_one(pattern: Seq<char>, text: Seq<char>) -> Option<
    Seq<Option<Seq<char>>>,
>;

/// Relies on `regex::Regex::new` to compile `pattern` (an error becomes
/// `None`) and on `Regex::captures_iter` with `Captures::get(1)` for the
/// first group of each successive match in `text`.
#[verifier::external_body]
fn group_one_captures(pattern: &str, text: &str) -> (r: Option<Vec<Option<String>>>)
    ensures
        r.deep_view() == regex_group_one(pattern@, text@),
{
    regex::Regex::new(pattern).ok().map(
        |re| re.captures_iter(text).map(|c| c.get(1).map(|m| m.as_str().to_owned())).collect(),
    )
}

/// The names among `caps` that are present, in order.
pub open spec fn present_names(caps: Seq<Option<Seq<char>>>) -> Seq<Seq<char>>
    decreases caps.len(),
{
    if caps.len() == 0 {
        seq![]
    } else {
        let rest = present_names(caps.drop_last());
        match caps.last() {
            Some(n) => rest.push(n),
            None => rest,
        }
    }
}

/// The names that `patterns` capture in `text`, pattern by pattern; `None`
/// where one of them does not compile.
pub open spec fn captured_names(patterns: Seq<Seq<char>>, text: Seq<char>) -> Option<
    Seq<Seq<char>>,
>
    decreases patterns.len(),
{
    if patterns.len() == 0 {
        Some(seq![])
    } else {
        match (captured_names(patterns.drop_last(), text), regex_group_one(patterns.last(), text)) {
            (Some(a), Some(c)) => Some(a + present_names(c)),
            _ => None,
        }
    }
}

/// The names that the recognition patterns capture in `text`.
pub open spec fn names_in_text(text: Seq<char>) -> Option<Seq<Seq<char>>> {
    captured_names(recognition_patterns(), text)
}

/// A recognition pattern that the regex engine refused.
pub struct InvalidPattern {
    pub pattern: String,
}

fn patterns() -> (r: Vec<&'static str>)
    ensures
        r.deep_view() == recognition_patterns(),
{
    let r = vec![
        GET_COUNTER_PATTERN,
        INCREMENT_METRIC_PATTERN,
        TICK_METRIC_PATTERN,
        SET_METRIC_PATTERN,
        RESET_METRIC_PATTERN,
        LOAD_METRIC_PATTERN,
    ];
    assert(r.deep_view() =~= recognition_patterns());
    r
}

/// Appends the present names among `caps` to `out`.
fn push_present(out: &mut Vec<String>, caps: Vec<Option<String>>)
    ensures
        final(out).deep_view() == old(out).deep_view() + present_names(caps.deep_view()),
{
    let ghost start = out.deep_view();
    let ghost c = caps.deep_view();
    let mut i: usize = 0;
    while i < caps.len()
        invariant
            c == caps.deep_view(),
            0 <= i <= c.len(),
            out.deep_view() == start + present_names(c.take(i as int)),
        decreases c.len() - i,
    {
        assert(c.take(i + 1).drop_last() =~= c.take(i as int));
        assert(c.take(i + 1).last() == caps[i as int].deep_view());
        match &caps[i] {
            Some(n) => {
                let ghost before = out.deep_view();
                let ghost before_v = out@;
                let s = n.clone();
                out.push(s);
                assert(out@ == before_v.push(s));
                assert(out.deep_view() =~= before.push(n@));
                assert(out.deep_view() =~= start + present_names(c.take(i as int)).push(n@));
                assert(out.deep_view() =~= start + present_names(c.take(i + 1)));
            },
            None => {},
        }
        i = i + 1;
    }
    assert(c.take(c.len() as int) =~= c);
}

/// The counter names that the six access forms reference in `text`, in the
/// order of the patterns and, within one pattern, of their places in `text`.
pub fn metric_names_in_text(text: &str) -> (r: Result<Vec<String>, InvalidPattern>)
    ensures
        match r {
            Ok(v) => names_in_text(text@) == Some(v.deep_view()),
            Err(e) => names_in_text(text@) is None && regex_group_one(e.pattern@, text@) is None
                && recognition_patterns().contains(e.pattern@),
        },
{
    let ps = patterns();
    let ghost p = ps.deep_view();
    let mut out: Vec<String> = Vec::new();
    let mut i: usize = 0;
    while i < ps.len()
        invariant
            p == ps.deep_view(),
            p == recognition_patterns(),
            0 <= i <= p.len(),
            captured_names(p.take(i as int), text@) == Some(out.deep_view()),
        decreases p.len() - i,
    {
        assert(p.take(i + 1).drop_last() =~= p.take(i as int));
        match group_one_captures(ps[i], text) {
            Some(caps) => {
                push_present(&mut out, caps);
            },
            None => {
                proof {
                    lemma_captured_none_extends(p, text@, i + 1);
                    assert(p.take(p.len() as int) =~= p);
                    assert(p[i as int] == ps[i as int]@);
                }
                return Err(InvalidPattern { pattern: ps[i].to_owned() });
            },
        }
        i = i + 1;
    }
    assert(p.take(p.len() as int) =~= p);
    Ok(out)
}

proof fn lemma_captured_none_extends(p: Seq<Seq<char>>, text: Seq<char>, k: int)
    requires
        0 <= k <= p.len(),
        captured_names(p.take(k), text) is None,
    ensures
        captured_names(p, text) is None,
    decreases p.len() - k,
{
    if k < p.len() {
        assert(p.take(k + 1).drop_last() =~= p.take(k));
        lemma_captured_none_extends(p, text, k + 1);
    } else {
        assert(p.take(k) =~= p);
    }
}

} // verus!
