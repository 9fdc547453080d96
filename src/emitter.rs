//! Rendering an ordered sequence of counter names as the source of the
//! registry: a struct with one atomic field per name, a constructor that zeroes
//! them, and one process-wide instance.

use vstd::prelude::*;

verus! {

/// What precedes the field declarations.
pub const RECORDER_HEADER: &'static str = "use std::sync::atomic::AtomicU64;\n\npub struct MetricsRecorder {\n";

/// What stands between the field declarations and the field initialisers.
pub const RECORDER_CONSTRUCTOR: &'static str = "}\n\nimpl MetricsRecorder {\npub const fn new() -> Self {\nSelf {\n";

/// What follows the field initialisers.
pub const RECORDER_FOOTER: &'static str = "}\n}\n}\n\npub static METRICS_RECORDER: MetricsRecorder = MetricsRecorder::new();\n";

/// One line `pub <name>: AtomicU64,` per name, in order.
pub open spec fn field_declarations(names: Seq<Seq<char>>) -> Seq<char>
    decreases names.len(),
{
    if names.len() == 0 {
        seq![]
    } else {
        field_declarations(names.drop_last()) + "pub "@ + names.last() + ": AtomicU64,\n"@
    }
}

/// One line `<name>: AtomicU64::new(0),` per name, in order.
pub open spec fn field_initializers(names: Seq<Seq<char>>) -> Seq<char>
    decreases names.len(),
{
    if names.len() == 0 {
        seq![]
    } else {
        field_initializers(names.drop_last()) + names.last() + ": AtomicU64::new(0),\n"@
    }
}

/// The registry's source for `names`, fields in the order given.
pub open spec fn recorder_source(names: Seq<Seq<char>>) -> Seq<char> {
    RECORDER_HEADER@ + field_declarations(names) + RECORDER_CONSTRUCTOR@ + field_initializers(
        names,
    ) + RECORDER_FOOTER@
}

/// Renders the registry's source with one field per name of `names`, in the
/// order given.
pub fn render_metrics_recorder(names: &Vec<String>) -> (r: String)
    ensures
        r@ == recorder_source(names.deep_view()),
{
    let ghost v = names.deep_view();
    let mut out = RECORDER_HEADER.to_owned();
    let mut i: usize = 0;
    while i < names.len()
        invariant
            v == names.deep_view(),
            0 <= i <= v.len(),
            out@ == RECORDER_HEADER@ + field_declarations(v.take(i as int)),
        decreases v.len() - i,
    {
        assert(v.take(i + 1).drop_last() =~= v.take(i as int));
        out.append("pub ");
        out.append(names[i].as_str());
        out.append(": AtomicU64,\n");
        i = i + 1;
    }
    assert(v.take(v.len() as int) =~= v);
    out.append(RECORDER_CONSTRUCTOR);
    let ghost mid = out@;
    let mut j: usize = 0;
    while j < names.len()
        invariant
            v == names.deep_view(),
            0 <= j <= v.len(),
            out@ == mid + field_initializers(v.take(j as int)),
        decreases v.len() - j,
    {
        assert(v.take(j + 1).drop_last() =~= v.take(j as int));
        out.append(names[j].as_str());
        out.append(": AtomicU64::new(0),\n");
        j = j + 1;
    }
    out.append(RECORDER_FOOTER);
    out
}

} // verus!
