//! Provenance tracing for every computed number.
//!
//! A [`Traced<T>`] pairs a value with the [`Trace`] tree that produced it.
//! Computations take traced inputs and return traced outputs, so the tree is
//! assembled as a side effect of doing the arithmetic.

use crate::text::{compare_str, lemma_lex_transitive, lex_lt, strictly_sorted, Precedence};
use std::sync::Arc;
use vstd::prelude::*;

verus! {

/// Where a leaf value entered the system.
#[derive(Debug, Clone, PartialEq, Eq)]
pub enum Origin {
    /// Supplied directly by the operator in the terminal.
    UserInput {
        /// Field the operator typed into.
        field: String,
    },
    /// Retrieved from an external source through a connector.
    External {
        /// Stable connector identifier, e.g. `hud.fmr`.
        source_id: String,
        /// Trust tier recorded by the connector, as its lowercase name.
        trust_tier: String,
        /// RFC-3339 timestamp of the fetch, captured at the connector boundary.
        fetched_at: String,
    },
    /// A constant fixed by the model itself (e.g. 12 months in a year).
    Constant {
        /// Human-readable name of the constant.
        name: String,
    },
    /// An assumption the operator has not overridden, carrying its default.
    Assumption {
        /// Name of the assumption, e.g. `vacancy_rate`.
        name: String,
        /// Why this default was chosen.
        rationale: String,
    },
}

/// The derivation tree for a computed value.
///
/// Child edges are `Arc`s so that a widely reused input is stored once and
/// shared.
#[derive(Debug, Clone, PartialEq, Eq)]
pub enum Trace {
    /// A value that entered the system from outside the engine.
    Leaf {
        /// Display label for this input.
        label: String,
        /// Where it came from.
        origin: Origin,
    },
    /// A value derived from other traced values.
    Derived {
        /// Display label for the computed value.
        label: String,
        /// Name of the operation, e.g. `noi`, `dscr`, `cap_rate`.
        op: String,
        /// The traces of the inputs, in argument order.
        inputs: Vec<Arc<Trace>>,
    },
}

/// The display label of a trace node.
pub open spec fn trace_label(t: Trace) -> Seq<char> {
    match t {
        Trace::Leaf { label, .. } => label@,
        Trace::Derived { label, .. } => label@,
    }
}

/// `t` is a leaf labelled `label` with origin `origin`.
pub open spec fn is_leaf(t: Trace, label: Seq<char>, origin: Origin) -> bool {
    &&& t is Leaf
    &&& t->Leaf_label@ == label
    &&& t->origin == origin
}

/// `t` is a derived node with the given label and operation over `inputs`,
/// in argument order.
pub open spec fn is_derived(t: Trace, label: Seq<char>, op: Seq<char>, inputs: Seq<Trace>) -> bool {
    &&& t is Derived
    &&& t->Derived_label@ == label
    &&& t->op@ == op
    &&& t->inputs@.len() == inputs.len()
    &&& forall|k: int| 0 <= k < inputs.len() ==> *#[trigger] t->inputs@[k] == inputs[k]
}

/// Depth of a trace; a leaf has depth 1, and the count saturates at `usize::MAX`.
pub open spec fn depth_spec(t: Trace) -> nat
    decreases t,
{
    match t {
        Trace::Leaf { .. } => 1,
        Trace::Derived { inputs, .. } => sat_succ(max_depth_of(inputs@)),
    }
}

/// `x + 1`, saturating at `usize::MAX`.
pub open spec fn sat_succ(x: nat) -> nat {
    if x + 1 > usize::MAX { usize::MAX as nat } else { x + 1 }
}

/// The largest depth among a list of traces, 0 for an empty list.
pub open spec fn max_depth_of(ts: Seq<Arc<Trace>>) -> nat
    decreases ts,
{
    if ts.len() == 0 {
        0
    } else {
        let last = depth_spec(*ts.last());
        let rest = max_depth_of(ts.drop_last());
        if last >= rest { last } else { rest }
    }
}

/// Number of nodes in a trace, counting a shared node once per edge; each
/// node's count saturates at `usize::MAX`.
pub open spec fn node_count_spec(t: Trace) -> nat
    decreases t,
{
    match t {
        Trace::Leaf { .. } => 1,
        Trace::Derived { inputs, .. } => sat_succ(count_sum(inputs@)),
    }
}

/// The sum of the node counts of a list of traces.
pub open spec fn count_sum(ts: Seq<Arc<Trace>>) -> nat
    decreases ts,
{
    if ts.len() == 0 {
        0
    } else {
        count_sum(ts.drop_last()) + node_count_spec(*ts.last())
    }
}

/// Counting the nodes of `t` never adds the counts of sibling subtrees past
/// `usize::MAX`.
pub open spec fn node_count_fits(t: Trace) -> bool
    decreases t,
{
    match t {
        Trace::Leaf { .. } => true,
        Trace::Derived { inputs, .. } => count_sum(inputs@) <= usize::MAX && all_counts_fit(inputs@),
    }
}

/// Every trace in the list satisfies [`node_count_fits`].
pub open spec fn all_counts_fit(ts: Seq<Arc<Trace>>) -> bool
    decreases ts,
{
    if ts.len() == 0 {
        true
    } else {
        all_counts_fit(ts.drop_last()) && node_count_fits(*ts.last())
    }
}

/// The external source identifiers a trace rests on, in depth-first order,
/// repeats included.
pub open spec fn sources_spec(t: Trace) -> Seq<Seq<char>>
    decreases t,
{
    match t {
        Trace::Leaf { origin, .. } => match origin {
            Origin::External { source_id, .. } => seq![source_id@],
            _ => Seq::empty(),
        },
        Trace::Derived { inputs, .. } => sources_of_all(inputs@),
    }
}

/// The external source identifiers of a list of traces, in order.
pub open spec fn sources_of_all(ts: Seq<Arc<Trace>>) -> Seq<Seq<char>>
    decreases ts,
{
    if ts.len() == 0 {
        Seq::empty()
    } else {
        sources_of_all(ts.drop_last()) + sources_spec(*ts.last())
    }
}

/// The views of a list of string slices.
pub open spec fn str_views(s: Seq<&str>) -> Seq<Seq<char>> {
    s.map_values(|x: &str| x@)
}

/// How a leaf's origin is shown in a rendered trace.
pub open spec fn origin_tag(o: Origin) -> Seq<char> {
    match o {
        Origin::UserInput { field } => "input:"@ + field@,
        Origin::External { source_id, trust_tier, .. } => source_id@ + "["@ + trust_tier@ + "]"@,
        Origin::Constant { name } => "const:"@ + name@,
        Origin::Assumption { name, .. } => "assume:"@ + name@,
    }
}

/// Two spaces per level of indentation.
pub open spec fn indent(depth: nat) -> Seq<char>
    decreases depth,
{
    if depth == 0 {
        Seq::empty()
    } else {
        indent((depth - 1) as nat) + "  "@
    }
}

/// `x + 1`, saturating at `usize::MAX`, as a `usize`.
pub open spec fn next_depth(d: usize) -> usize {
    if d == usize::MAX { d } else { (d + 1) as usize }
}

/// The indented text rendering of a trace at a given depth: one line per
/// node, leaves as `label  <- origin`, derived nodes as `label  = op`
/// followed by their inputs one level deeper.
pub open spec fn render_spec(t: Trace, depth: usize) -> Seq<char>
    decreases t,
{
    indent(depth as nat) + match t {
        Trace::Leaf { label, origin } => label@ + "  <- "@ + origin_tag(origin) + "\n"@,
        Trace::Derived { label, op, inputs } => label@ + "  = "@ + op@ + "\n"@ + render_all(
            inputs@,
            next_depth(depth),
        ),
    }
}

/// The renderings of a list of traces at one depth, concatenated in order.
pub open spec fn render_all(ts: Seq<Arc<Trace>>, depth: usize) -> Seq<char>
    decreases ts,
{
    if ts.len() == 0 {
        Seq::empty()
    } else {
        render_all(ts.drop_last(), depth) + render_spec(*ts.last(), depth)
    }
}

/// Share a trace node with `Arc::clone`: another handle to the same
/// allocation. Trusted: the handle returned points to a node equal to the one
/// `t` points to (the clone copies the pointer, not the tree).
#[verifier::external_body]
fn share(t: &Arc<Trace>) -> (r: Arc<Trace>)
    ensures
        r == *t,
{
    Arc::clone(t)
}

impl Trace {
    /// Construct a leaf node.
    pub fn leaf(label: &str, origin: Origin) -> (r: Arc<Trace>)
        ensures
            is_leaf(*r, label@, origin),
    {
        Arc::new(Trace::Leaf { label: label.to_owned(), origin })
    }

    /// Construct a derived node.
    pub fn derived(label: &str, op: &'static str, inputs: Vec<Arc<Trace>>) -> (r: Arc<Trace>)
        ensures
            *r is Derived,
            r->Derived_label@ == label@,
            r->op@ == op@,
            r->inputs == inputs,
    {
        Arc::new(Trace::Derived { label: label.to_owned(), op: op.to_owned(), inputs })
    }

    /// The display label of this node.
    pub fn label(&self) -> (r: &str)
        ensures
            r@ == trace_label(*self),
    {
        match self {
            Trace::Leaf { label, .. } => label.as_str(),
            Trace::Derived { label, .. } => label.as_str(),
        }
    }

    /// Total number of nodes in the tree, counting shared nodes once per edge.
    pub fn node_count(&self) -> (r: usize)
        requires
            node_count_fits(*self),
        ensures
            r == node_count_spec(*self),
        decreases self,
    {
        match self {
            Trace::Leaf { .. } => 1,
            Trace::Derived { inputs, .. } => {
                let mut total: usize = 0;
                let mut i: usize = 0;
                proof {
                    lemma_count_sum_prefix(inputs@, inputs@.len() as int);
                }
                while i < inputs.len()
                    invariant
                        i <= inputs.len(),
                        *self is Derived,
                        self->inputs == *inputs,
                        node_count_fits(*self),
                        total == count_sum(inputs@.take(i as int)),
                    decreases inputs.len() - i,
                {
                    proof {
                        assert(decreases_to!(*self => self->inputs));
                        assert(decreases_to!(*inputs => inputs@));
                        assert(decreases_to!(inputs@ => inputs@[i as int]));
                        assert(inputs@.take(i + 1).drop_last() =~= inputs@.take(i as int));
                        lemma_count_sum_prefix(inputs@, i + 1);
                        lemma_all_counts_fit_index(inputs@, i as int);
                    }
                    let c = inputs[i].node_count();
                    total = total + c;
                    i += 1;
                }
                assert(inputs@.take(inputs.len() as int) =~= inputs@);
                total.saturating_add(1)
            },
        }
    }

    /// Depth of the tree; a leaf has depth 1.
    pub fn depth(&self) -> (r: usize)
        ensures
            r == depth_spec(*self),
        decreases self,
    {
        match self {
            Trace::Leaf { .. } => 1,
            Trace::Derived { inputs, .. } => {
                let mut deepest: usize = 0;
                let mut i: usize = 0;
                while i < inputs.len()
                    invariant
                        i <= inputs.len(),
                        deepest == max_depth_of(inputs@.take(i as int)),
                        *self is Derived,
                        self->inputs == *inputs,
                    decreases inputs.len() - i,
                {
                    proof {
                        assert(decreases_to!(*self => self->inputs));
                        assert(decreases_to!(*inputs => inputs@));
                        assert(decreases_to!(inputs@ => inputs@[i as int]));
                        assert(inputs@.take(i + 1).drop_last() =~= inputs@.take(i as int));
                    }
                    let d = inputs[i].depth();
                    if d > deepest {
                        deepest = d;
                    }
                    i += 1;
                }
                assert(inputs@.take(inputs.len() as int) =~= inputs@);
                deepest.saturating_add(1)
            },
        }
    }
}

/// The sum over a prefix is at most the sum over the whole list, and
/// extends by the next element's count.
proof fn lemma_count_sum_prefix(ts: Seq<Arc<Trace>>, i: int)
    requires
        0 <= i <= ts.len(),
    ensures
        count_sum(ts.take(i)) <= count_sum(ts),
        i > 0 ==> count_sum(ts.take(i)) == count_sum(ts.take(i - 1)) + node_count_spec(*ts[i - 1]),
    decreases ts.len(),
{
    if i > 0 {
        assert(ts.take(i).drop_last() =~= ts.take(i - 1));
    }
    if ts.len() > 0 && i < ts.len() {
        assert(ts.drop_last().take(i) =~= ts.take(i));
        lemma_count_sum_prefix(ts.drop_last(), i);
    } else if i == ts.len() {
        assert(ts.take(i) =~= ts);
    }
}

/// Each trace of a list whose counts all fit has a count that fits.
proof fn lemma_all_counts_fit_index(ts: Seq<Arc<Trace>>, k: int)
    requires
        all_counts_fit(ts),
        0 <= k < ts.len(),
    ensures
        node_count_fits(*ts[k]),
    decreases ts.len(),
{
    if k < ts.len() - 1 {
        assert(ts.drop_last()[k] == ts[k]);
        lemma_all_counts_fit_index(ts.drop_last(), k);
    }
}

impl Trace {
    /// Every distinct external `source_id` this value depends on, sorted.
    ///
    /// A number cannot be shown without disclosing which external sources it
    /// rests on; this is the list the provenance pane and the data-rights
    /// audit consume.
    pub fn external_sources(&self) -> (r: Vec<&str>)
        ensures
            strictly_sorted(str_views(r@)),
            forall|x: Seq<char>| str_views(r@).contains(x) <==> sources_spec(*self).contains(x),
    {
        let mut found: Vec<&str> = Vec::new();
        self.collect_sources(&mut found);
        let mut out: Vec<&str> = Vec::new();
        let mut i: usize = 0;
        while i < found.len()
            invariant
                i <= found.len(),
                str_views(found@) == sources_spec(*self),
                strictly_sorted(str_views(out@)),
                forall|x: Seq<char>| str_views(out@).contains(x) <==> str_views(found@.take(i as int)).contains(x),
            decreases found.len() - i,
        {
            let s = found[i];
            insert_sorted(&mut out, s);
            proof {
                assert(str_views(found@.take(i + 1)) =~= str_views(found@.take(i as int)).push(s@));
                lemma_push_contains(str_views(found@.take(i as int)), s@);
            }
            i += 1;
        }
        proof {
            assert(found@.take(found.len() as int) =~= found@);
        }
        out
    }

    fn collect_sources<'a>(&'a self, out: &mut Vec<&'a str>)
        ensures
            str_views(final(out)@) == str_views(old(out)@) + sources_spec(*self),
        decreases self,
    {
        match self {
            Trace::Leaf { origin: Origin::External { source_id, .. }, .. } => {
                out.push(source_id.as_str());
                proof {
                    assert(str_views(out@) =~= str_views(old(out)@) + sources_spec(*self));
                }
            },
            Trace::Leaf { .. } => {
                proof {
                    assert(str_views(out@) =~= str_views(old(out)@) + sources_spec(*self));
                }
            },
            Trace::Derived { inputs, .. } => {
                let mut i: usize = 0;
                while i < inputs.len()
                    invariant
                        i <= inputs.len(),
                        *self is Derived,
                        self->inputs == *inputs,
                        str_views(out@) == str_views(old(out)@) + sources_of_all(inputs@.take(i as int)),
                    decreases inputs.len() - i,
                {
                    proof {
                        assert(decreases_to!(*self => self->inputs));
                        assert(decreases_to!(*inputs => inputs@));
                        assert(decreases_to!(inputs@ => inputs@[i as int]));
                        assert(inputs@.take(i + 1).drop_last() =~= inputs@.take(i as int));
                    }
                    inputs[i].collect_sources(out);
                    proof {
                        assert(str_views(out@) =~= str_views(old(out)@) + sources_of_all(
                            inputs@.take(i + 1),
                        ));
                    }
                    i += 1;
                }
                assert(inputs@.take(inputs.len() as int) =~= inputs@);
            },
        }
    }

    /// Render the tree as indented text for the provenance pane.
    pub fn render(&self) -> (r: String)
        ensures
            r@ == render_spec(*self, 0),
    {
        let mut buf = String::new();
        self.render_into(&mut buf, 0);
        buf
    }

    fn render_into(&self, buf: &mut String, depth: usize)
        ensures
            final(buf)@ == old(buf)@ + render_spec(*self, depth),
        decreases self,
    {
        let mut k: usize = 0;
        while k < depth
            invariant
                k <= depth,
                buf@ == old(buf)@ + indent(k as nat),
            decreases depth - k,
        {
            buf.append("  ");
            k += 1;
        }
        match self {
            Trace::Leaf { label, origin } => {
                buf.append(label.as_str());
                buf.append("  <- ");
                match origin {
                    Origin::UserInput { field } => {
                        buf.append("input:");
                        buf.append(field.as_str());
                    },
                    Origin::External { source_id, trust_tier, .. } => {
                        buf.append(source_id.as_str());
                        buf.append("[");
                        buf.append(trust_tier.as_str());
                        buf.append("]");
                    },
                    Origin::Constant { name } => {
                        buf.append("const:");
                        buf.append(name.as_str());
                    },
                    Origin::Assumption { name, .. } => {
                        buf.append("assume:");
                        buf.append(name.as_str());
                    },
                }
                buf.append("\n");
                proof {
                    assert(buf@ =~= old(buf)@ + render_spec(*self, depth));
                }
            },
            Trace::Derived { label, op, inputs } => {
                buf.append(label.as_str());
                buf.append("  = ");
                buf.append(op.as_str());
                buf.append("\n");
                let ghost head = buf@;
                let child_depth = depth.saturating_add(1);
                let mut i: usize = 0;
                assert(render_all(inputs@.take(0), child_depth) =~= Seq::<char>::empty());
                while i < inputs.len()
                    invariant
                        i <= inputs.len(),
                        *self is Derived,
                        self->inputs == *inputs,
                        child_depth == next_depth(depth),
                        buf@ == head + render_all(inputs@.take(i as int), child_depth),
                    decreases inputs.len() - i,
                {
                    proof {
                        assert(decreases_to!(*self => self->inputs));
                        assert(decreases_to!(*inputs => inputs@));
                        assert(decreases_to!(inputs@ => inputs@[i as int]));
                        assert(inputs@.take(i + 1).drop_last() =~= inputs@.take(i as int));
                    }
                    inputs[i].render_into(buf, child_depth);
                    i += 1;
                }
                proof {
                    assert(inputs@.take(inputs.len() as int) =~= inputs@);
                    assert(buf@ =~= old(buf)@ + render_spec(*self, depth));
                }
            },
        }
    }
}

/// Insert `s` into a strictly sorted list of strings unless an equal string
/// is already present.
fn insert_sorted<'a>(out: &mut Vec<&'a str>, s: &'a str)
    requires
        strictly_sorted(str_views(old(out)@)),
    ensures
        strictly_sorted(str_views(final(out)@)),
        forall|x: Seq<char>| str_views(final(out)@).contains(x) <==> (str_views(old(out)@).contains(x) || x == s@),
{
    let ghost before = str_views(out@);
    let mut j: usize = 0;
    let mut present = false;
    let mut stop = false;
    while j < out.len() && !stop
        invariant
            j <= out.len(),
            out@ == old(out)@,
            before == str_views(out@),
            strictly_sorted(before),
            forall|k: int| 0 <= k < j ==> lex_lt(#[trigger] before[k], s@),
            stop ==> j < out.len(),
            present ==> stop,
            stop && present ==> before[j as int] == s@,
            stop && !present ==> lex_lt(s@, before[j as int]),
        decreases out.len() - j + (if stop { 0int } else { 1int }),
    {
        proof {
            assert(before[j as int] == out@[j as int]@);
        }
        match compare_str(out[j], s) {
            Precedence::Before => {
                j += 1;
            },
            Precedence::Same => {
                present = true;
                stop = true;
            },
            Precedence::After => {
                stop = true;
            },
        }
    }
    if present {
        proof {
            assert(before[j as int] == s@);
            assert(before.contains(s@));
        }
        return;
    }
    proof {
        lemma_insert_keeps_order(before, s@, j as int);
        lemma_insert_contains(before, s@, j as int);
        assert(before == str_views(old(out)@));
    }
    out.insert(j, s);
    proof {
        assert(str_views(out@) =~= before.insert(j as int, s@));
        assert forall|x: Seq<char>| #[trigger] str_views(out@).contains(x) <==> (str_views(old(out)@).contains(x) || x == s@) by {
            assert(str_views(out@) == before.insert(j as int, s@));
        }
    }
}

/// Inserting `x` at `j` into a strictly sorted list keeps it sorted when
/// everything before `j` sorts before `x` and `x` sorts before what is at `j`.
proof fn lemma_insert_keeps_order(s: Seq<Seq<char>>, x: Seq<char>, j: int)
    requires
        strictly_sorted(s),
        0 <= j <= s.len(),
        forall|k: int| 0 <= k < j ==> lex_lt(#[trigger] s[k], x),
        j < s.len() ==> lex_lt(x, s[j]),
    ensures
        strictly_sorted(s.insert(j, x)),
{
    let t = s.insert(j, x);
    assert forall|a: int, b: int| 0 <= a < b < t.len() implies lex_lt(#[trigger] t[a], #[trigger] t[b]) by {
        if b < j {
        } else if b == j {
        } else if a < j {
            lemma_lex_transitive(s[a], x, s[j]);
            if b - 1 > j {
                lemma_lex_transitive(s[a], s[j], s[b - 1]);
            }
        } else if a == j {
            if b - 1 > j {
                lemma_lex_transitive(x, s[j], s[b - 1]);
            }
        } else {
        }
    }
}

/// The elements of a sequence with one more pushed are the old ones and it.
proof fn lemma_push_contains(s: Seq<Seq<char>>, x: Seq<char>)
    ensures
        forall|y: Seq<char>| s.push(x).contains(y) <==> (s.contains(y) || y == x),
{
    lemma_insert_contains(s, x, s.len() as int);
    assert(s.insert(s.len() as int, x) =~= s.push(x));
}

/// The elements after an insertion are the old ones and the inserted one.
proof fn lemma_insert_contains(s: Seq<Seq<char>>, x: Seq<char>, j: int)
    requires
        0 <= j <= s.len(),
    ensures
        forall|y: Seq<char>| s.insert(j, x).contains(y) <==> (s.contains(y) || y == x),
{
    let t = s.insert(j, x);
    assert forall|y: Seq<char>| t.contains(y) <==> (s.contains(y) || y == x) by {
        if s.contains(y) {
            let k = choose|k: int| 0 <= k < s.len() && s[k] == y;
            if k < j {
                assert(t[k] == y);
            } else {
                assert(t[k + 1] == y);
            }
        }
        if y == x {
            assert(t[j] == x);
        }
        if t.contains(y) {
            let k = choose|k: int| 0 <= k < t.len() && t[k] == y;
            if k < j {
                assert(s[k] == y);
            } else if k > j {
                assert(s[k - 1] == y);
            }
        }
    }
}

/// A value carrying the trace that produced it.
///
/// Computations are expressed in `Traced<T>`, which makes "compute a number
/// without provenance" unrepresentable rather than merely discouraged.
#[derive(Debug, Clone, PartialEq, Eq)]
pub struct Traced<T> {
    /// The computed value.
    pub value: T,
    /// The derivation of the value.
    pub trace: Arc<Trace>,
}

impl<T> Traced<T> {
    /// Pair a value with an existing trace.
    pub fn new(value: T, trace: Arc<Trace>) -> (r: Traced<T>)
        ensures
            r.value == value,
            r.trace == trace,
    {
        Traced { value, trace }
    }

    /// Introduce a value as a leaf of the trace tree.
    pub fn leaf(value: T, label: &str, origin: Origin) -> (r: Traced<T>)
        ensures
            r.value == value,
            is_leaf(*r.trace, label@, origin),
    {
        Traced { value, trace: Trace::leaf(label, origin) }
    }

    /// Introduce a model constant, labelled by its name.
    pub fn constant(value: T, name: &str) -> (r: Traced<T>)
        ensures
            r.value == value,
            *r.trace is Leaf,
            r.trace->Leaf_label@ == name@,
            r.trace->origin is Constant,
            r.trace->origin->Constant_name@ == name@,
    {
        let owned = name.to_owned();
        Traced { value, trace: Trace::leaf(name, Origin::Constant { name: owned }) }
    }

    /// Map the value, recording a derivation node with this value's trace as
    /// the sole input.
    pub fn map<U, F: FnOnce(T) -> U>(self, label: &str, op: &'static str, f: F) -> (r: Traced<U>)
        requires
            f.requires((self.value,)),
        ensures
            f.ensures((self.value,), r.value),
            is_derived(*r.trace, label@, op@, seq![*self.trace]),
    {
        let mut inputs: Vec<Arc<Trace>> = Vec::new();
        inputs.push(self.trace);
        Traced { value: f(self.value), trace: Trace::derived(label, op, inputs) }
    }

    /// Borrow the value.
    pub fn value(&self) -> (r: &T)
        ensures
            *r == self.value,
    {
        &self.value
    }
}

/// Combine traced inputs into a derived result, recording an n-ary operation
/// in one step: `derive("NOI", "noi", &[&egi.trace, &opex.trace], value)`.
pub fn derive<T>(label: &str, op: &'static str, inputs: &[&Arc<Trace>], value: T) -> (r: Traced<T>)
    ensures
        r.value == value,
        is_derived(*r.trace, label@, op@, inputs@.map_values(|t: &Arc<Trace>| **t)),
{
    let mut shared: Vec<Arc<Trace>> = Vec::new();
    let mut i: usize = 0;
    while i < inputs.len()
        invariant
            i <= inputs.len(),
            shared@.len() == i,
            forall|k: int| 0 <= k < i ==> #[trigger] shared@[k] == *inputs@[k],
        decreases inputs.len() - i,
    {
        shared.push(share(inputs[i]));
        i += 1;
    }
    Traced { value, trace: Trace::derived(label, op, shared) }
}

/// What one of two joined lists contains, the join contains, and nothing else.
proof fn lemma_concat_contains(a: Seq<Seq<char>>, b: Seq<Seq<char>>, x: Seq<char>)
    ensures
        (a + b).contains(x) <==> (a.contains(x) || b.contains(x)),
{
    let c = a + b;
    if a.contains(x) {
        let k = choose|k: int| 0 <= k < a.len() && a[k] == x;
        assert(c[k] == x);
    }
    if b.contains(x) {
        let k = choose|k: int| 0 <= k < b.len() && b[k] == x;
        assert(c[a.len() + k] == x);
    }
    if c.contains(x) {
        let k = choose|k: int| 0 <= k < c.len() && c[k] == x;
        if k < a.len() {
            assert(a[k] == x);
        } else {
            assert(b[k - a.len()] == x);
        }
    }
}

/// The sources of the last trace of a non-empty list.
spec fn sources_of_last(ts: Seq<Arc<Trace>>) -> Seq<Seq<char>> {
    sources_spec(*ts.last())
}

/// The sources of a list of traces are exactly those of its members.
proof fn lemma_sources_of_all(ts: Seq<Arc<Trace>>, x: Seq<char>)
    ensures
        sources_of_all(ts).contains(x) <==> exists|k: int|
            0 <= k < ts.len() && #[trigger] sources_spec(*ts[k]).contains(x),
    decreases ts.len(),
{
    if ts.len() > 0 {
        let init = ts.drop_last();
        lemma_sources_of_all(init, x);
        assert(sources_of_all(ts) == sources_of_all(init) + sources_spec(*ts.last()));
        lemma_concat_contains(sources_of_all(init), sources_of_last(ts), x);
        if exists|k: int| 0 <= k < ts.len() && #[trigger] sources_spec(*ts[k]).contains(x) {
            let k = choose|k: int| 0 <= k < ts.len() && #[trigger] sources_spec(*ts[k]).contains(x);
            if k < ts.len() - 1 {
                assert(init[k] == ts[k]);
                assert(sources_spec(*init[k]).contains(x));
            }
        }
        if sources_of_all(init).contains(x) {
            let k = choose|k: int| 0 <= k < init.len() && #[trigger] sources_spec(*init[k]).contains(x);
            assert(ts[k] == init[k]);
            assert(sources_spec(*ts[k]).contains(x));
        }
    }
}

/// A derived value rests on exactly the external sources of its inputs:
/// every source of an input is a source of the result, and the result has
/// no other.
pub proof fn lemma_derived_sources(t: Trace, label: Seq<char>, op: Seq<char>, inputs: Seq<Trace>, x: Seq<char>)
    requires
        is_derived(t, label, op, inputs),
    ensures
        sources_spec(t).contains(x) <==> exists|k: int|
            0 <= k < inputs.len() && #[trigger] sources_spec(inputs[k]).contains(x),
{
    lemma_sources_of_all(t->inputs@, x);
    if exists|k: int| 0 <= k < inputs.len() && #[trigger] sources_spec(inputs[k]).contains(x) {
        let k = choose|k: int| 0 <= k < inputs.len() && #[trigger] sources_spec(inputs[k]).contains(x);
        assert(*t->inputs@[k] == inputs[k]);
        assert(sources_spec(*t->inputs@[k]).contains(x));
    }
    if sources_spec(t).contains(x) {
        let k = choose|k: int| 0 <= k < t->inputs@.len() && #[trigger] sources_spec(*t->inputs@[k]).contains(x);
        assert(*t->inputs@[k] == inputs[k]);
        assert(sources_spec(inputs[k]).contains(x));
    }
}

/// No trace list has a member deeper than its maximum depth.
proof fn lemma_max_depth_bounds(ts: Seq<Arc<Trace>>, k: int)
    requires
        0 <= k < ts.len(),
    ensures
        depth_spec(*ts[k]) <= max_depth_of(ts),
    decreases ts.len(),
{
    if k < ts.len() - 1 {
        assert(ts.drop_last()[k] == ts[k]);
        lemma_max_depth_bounds(ts.drop_last(), k);
    }
}

/// A derived value over at least one input is never a bare leaf: its depth
/// is at least two.
pub proof fn lemma_derived_is_not_a_leaf(t: Trace, label: Seq<char>, op: Seq<char>, inputs: Seq<Trace>)
    requires
        is_derived(t, label, op, inputs),
        inputs.len() >= 1,
    ensures
        depth_spec(t) >= 2,
{
    lemma_max_depth_bounds(t->inputs@, 0);
    let first = *t->inputs@[0];
    assert(depth_spec(first) >= 1);
}

/// [`lemma_derived_sources`] for every derived node at once.
pub proof fn lemma_derived_sources_forall()
    ensures
        forall|t: Trace, label: Seq<char>, op: Seq<char>, inputs: Seq<Trace>, x: Seq<char>|
            #[trigger] is_derived(t, label, op, inputs) ==> (#[trigger] sources_spec(t).contains(x)
                <==> exists|k: int| 0 <= k < inputs.len() && #[trigger] sources_spec(inputs[k]).contains(x)),
{
    assert forall|t: Trace, label: Seq<char>, op: Seq<char>, inputs: Seq<Trace>, x: Seq<char>|
        #[trigger] is_derived(t, label, op, inputs) implies (#[trigger] sources_spec(t).contains(x)
            <==> exists|k: int| 0 <= k < inputs.len() && #[trigger] sources_spec(inputs[k]).contains(x)) by {
        lemma_derived_sources(t, label, op, inputs, x);
    }
}

/// [`lemma_derived_is_not_a_leaf`] for every derived node at once.
pub proof fn lemma_derived_is_not_a_leaf_forall()
    ensures
        forall|t: Trace, label: Seq<char>, op: Seq<char>, inputs: Seq<Trace>|
            #[trigger] is_derived(t, label, op, inputs) && inputs.len() >= 1 ==> depth_spec(t) >= 2,
{
    assert forall|t: Trace, label: Seq<char>, op: Seq<char>, inputs: Seq<Trace>|
        #[trigger] is_derived(t, label, op, inputs) && inputs.len() >= 1 implies depth_spec(t) >= 2 by {
        lemma_derived_is_not_a_leaf(t, label, op, inputs);
    }
}

/// The characters of an origin's fields, tagged by its variant.
pub open spec fn origin_view(o: Origin) -> (int, Seq<char>, Seq<char>, Seq<char>) {
    match o {
        Origin::UserInput { field } => (0, field@, Seq::empty(), Seq::empty()),
        Origin::External { source_id, trust_tier, fetched_at } => (1, source_id@, trust_tier@, fetched_at@),
        Origin::Constant { name } => (2, name@, Seq::empty(), Seq::empty()),
        Origin::Assumption { name, rationale } => (3, name@, rationale@, Seq::empty()),
    }
}

/// Two traces are the same tree: node for node, the same kind, label,
/// operation and origin, with the same number of inputs in the same order.
pub open spec fn same_tree(a: Trace, b: Trace) -> bool
    decreases a,
{
    match a {
        Trace::Leaf { label, origin } => {
            &&& b is Leaf
            &&& b->Leaf_label@ == label@
            &&& origin_view(b->origin) == origin_view(origin)
        },
        Trace::Derived { label, op, inputs } => {
            &&& b is Derived
            &&& b->Derived_label@ == label@
            &&& b->op@ == op@
            &&& same_trees(inputs@, b->inputs@)
        },
    }
}

/// Two lists of traces are the same trees, position by position.
pub open spec fn same_trees(xs: Seq<Arc<Trace>>, ys: Seq<Arc<Trace>>) -> bool
    decreases xs,
{
    if xs.len() == 0 {
        ys.len() == 0
    } else {
        &&& ys.len() > 0
        &&& same_trees(xs.drop_last(), ys.drop_last())
        &&& same_tree(*xs.last(), *ys.last())
    }
}

/// The node an edge points to.
pub open spec fn node_of(edge: Arc<Trace>) -> Trace {
    *edge
}

/// Every trace is the same tree as itself.
pub proof fn lemma_same_tree_refl(t: Trace)
    ensures
        same_tree(t, t),
    decreases t,
{
    if let Trace::Derived { inputs, .. } = t {
        lemma_same_trees_refl(inputs@);
    }
}

/// Every list of traces is the same trees as itself.
pub proof fn lemma_same_trees_refl(xs: Seq<Arc<Trace>>)
    ensures
        same_trees(xs, xs),
    decreases xs,
{
    if xs.len() > 0 {
        lemma_same_trees_refl(xs.drop_last());
        lemma_same_tree_refl(node_of(xs.last()));
    }
}

/// Lists whose traces are pairwise the same trees are the same trees.
proof fn lemma_same_trees_pairwise(xs: Seq<Arc<Trace>>, ys: Seq<Arc<Trace>>)
    requires
        xs.len() == ys.len(),
        forall|k: int| 0 <= k < xs.len() ==> same_tree(*#[trigger] xs[k], *ys[k]),
    ensures
        same_trees(xs, ys),
    decreases xs.len(),
{
    if xs.len() > 0 {
        let (dx, dy) = (xs.drop_last(), ys.drop_last());
        assert forall|k: int| 0 <= k < dx.len() implies same_tree(*#[trigger] dx[k], *dy[k]) by {
            assert(dx[k] == xs[k] && dy[k] == ys[k]);
        }
        lemma_same_trees_pairwise(dx, dy);
        assert(same_tree(*xs[xs.len() - 1], *ys[ys.len() - 1]));
    }
}

/// Two derived nodes with the same label and operation over inputs that are
/// pairwise the same trees are the same tree.
pub proof fn lemma_derived_same_tree(
    a: Trace,
    b: Trace,
    label: Seq<char>,
    op: Seq<char>,
    ins_a: Seq<Trace>,
    ins_b: Seq<Trace>,
)
    requires
        is_derived(a, label, op, ins_a),
        is_derived(b, label, op, ins_b),
        ins_a.len() == ins_b.len(),
        forall|k: int| 0 <= k < ins_a.len() ==> same_tree(#[trigger] ins_a[k], ins_b[k]),
    ensures
        same_tree(a, b),
{
    let (xs, ys) = (a->inputs@, b->inputs@);
    assert forall|k: int| 0 <= k < xs.len() implies same_tree(*#[trigger] xs[k], *ys[k]) by {
        assert(*xs[k] == ins_a[k] && *ys[k] == ins_b[k]);
    }
    lemma_same_trees_pairwise(xs, ys);
}

/// No label, operation or origin tag anywhere in the tree holds a line break.
pub open spec fn single_line_nodes(t: Trace) -> bool
    decreases t,
{
    match t {
        Trace::Leaf { label, origin } => !label@.contains('\n') && !origin_tag(origin).contains('\n'),
        Trace::Derived { label, op, inputs } => !label@.contains('\n') && !op@.contains('\n')
            && all_single_line(inputs@),
    }
}

/// Every trace in the list satisfies [`single_line_nodes`].
pub open spec fn all_single_line(ts: Seq<Arc<Trace>>) -> bool
    decreases ts,
{
    if ts.len() == 0 {
        true
    } else {
        all_single_line(ts.drop_last()) && single_line_nodes(*ts.last())
    }
}

/// `s` with two spaces put in front of each of its lines; `at_line_start`
/// says whether `s` begins a line.
pub open spec fn indent_from(s: Seq<char>, at_line_start: bool) -> Seq<char>
    decreases s.len(),
{
    if s.len() == 0 {
        Seq::empty()
    } else {
        (if at_line_start { "  "@ } else { Seq::empty() }) + seq![s[0]] + indent_from(
            s.drop_first(),
            s[0] == '\n',
        )
    }
}

/// Every line of `s` indented by two more spaces.
pub open spec fn indent_lines(s: Seq<char>) -> Seq<char> {
    indent_from(s, true)
}

/// Whether the text after `a` begins a line, when `a` itself began at a
/// line start exactly when `at_line_start`.
pub open spec fn line_start_after(a: Seq<char>, at_line_start: bool) -> bool {
    if a.len() == 0 { at_line_start } else { a.last() == '\n' }
}

/// Indenting a concatenation indents each part, the second from where the
/// first left off.
proof fn lemma_indent_from_concat(a: Seq<char>, b: Seq<char>, at: bool)
    ensures
        indent_from(a + b, at) == indent_from(a, at) + indent_from(b, line_start_after(a, at)),
    decreases a.len(),
{
    if a.len() == 0 {
        assert(a + b =~= b);
    } else {
        let c = a + b;
        let rest = a.drop_first();
        assert(c[0] == a[0]);
        assert(c.drop_first() =~= rest + b);
        lemma_indent_from_concat(rest, b, a[0] == '\n');
        if rest.len() > 0 {
            assert(rest.last() == a.last());
        }
        let pre = if at { "  "@ } else { Seq::<char>::empty() };
        assert(indent_from(c, at) == pre + seq![a[0]] + indent_from(rest + b, a[0] == '\n'));
        assert(indent_from(a, at) == pre + seq![a[0]] + indent_from(rest, a[0] == '\n'));
        assert(pre + seq![a[0]] + (indent_from(rest, a[0] == '\n') + indent_from(
            b,
            line_start_after(a, at),
        )) =~= (pre + seq![a[0]] + indent_from(rest, a[0] == '\n')) + indent_from(
            b,
            line_start_after(a, at),
        ));
    }
}

/// A text without line breaks is one line: indenting it puts two spaces in
/// front when it begins a line, and leaves it alone otherwise.
proof fn lemma_indent_single_line(x: Seq<char>, at: bool)
    requires
        !x.contains('\n'),
    ensures
        indent_from(x, at) == (if at && x.len() > 0 { "  "@ } else { Seq::<char>::empty() }) + x,
    decreases x.len(),
{
    if x.len() == 0 {
        assert(Seq::<char>::empty() + x =~= x);
    } else {
        let rest = x.drop_first();
        assert(x[0] != '\n') by {
            if x[0] == '\n' {
                assert(x.contains('\n'));
            }
        }
        assert(!rest.contains('\n')) by {
            if rest.contains('\n') {
                let k = choose|k: int| 0 <= k < rest.len() && rest[k] == '\n';
                assert(x[k + 1] == '\n');
            }
        }
        lemma_indent_single_line(rest, false);
        assert(Seq::<char>::empty() + rest =~= rest);
        let pre = if at { "  "@ } else { Seq::<char>::empty() };
        assert(pre + seq![x[0]] + rest =~= pre + x);
    }
}

/// A concatenation of texts without line breaks has none.
proof fn lemma_no_line_break_concat(a: Seq<char>, b: Seq<char>)
    requires
        !a.contains('\n'),
        !b.contains('\n'),
    ensures
        !(a + b).contains('\n'),
{
    if (a + b).contains('\n') {
        let k = choose|k: int| 0 <= k < (a + b).len() && (a + b)[k] == '\n';
        if k < a.len() {
            assert(a[k] == '\n');
        } else {
            assert(b[k - a.len()] == '\n');
        }
    }
}

/// Indentation is spaces only: it holds no line break, and one more level
/// is two more spaces in front.
proof fn lemma_indent_shape(d: nat)
    ensures
        !indent(d).contains('\n'),
        "  "@ + indent(d) == indent(d + 1),
    decreases d,
{
    reveal_strlit("  ");
    if d == 0 {
        assert(indent(0) =~= Seq::<char>::empty());
        assert(!Seq::<char>::empty().contains('\n'));
        assert(indent(1) =~= Seq::<char>::empty() + "  "@);
        assert("  "@ + Seq::<char>::empty() =~= "  "@);
    } else {
        lemma_indent_shape((d - 1) as nat);
        assert(!"  "@.contains('\n')) by {
            if "  "@.contains('\n') {
                let k = choose|k: int| 0 <= k < "  "@.len() && "  "@[k] == '\n';
            }
        }
        lemma_no_line_break_concat(indent((d - 1) as nat), "  "@);
        assert("  "@ + indent(d) =~= ("  "@ + indent((d - 1) as nat)) + "  "@);
    }
}

/// The separators of a rendered line hold no line break and are not empty.
proof fn lemma_separators_are_inline()
    ensures
        !"  <- "@.contains('\n'),
        !"  = "@.contains('\n'),
        "  <- "@.len() > 0,
        "  = "@.len() > 0,
{
    reveal_strlit("  <- ");
    reveal_strlit("  = ");
    assert(!"  <- "@.contains('\n')) by {
        if "  <- "@.contains('\n') {
            let k = choose|k: int| 0 <= k < "  <- "@.len() && "  <- "@[k] == '\n';
        }
    }
    assert(!"  = "@.contains('\n')) by {
        if "  = "@.contains('\n') {
            let k = choose|k: int| 0 <= k < "  = "@.len() && "  = "@[k] == '\n';
        }
    }
}

/// A line followed by more text: indenting it indents the line, and the
/// rest from a fresh line start.
proof fn lemma_indent_line_then(x: Seq<char>, rest: Seq<char>)
    requires
        !x.contains('\n'),
        x.len() > 0,
    ensures
        indent_lines(x + "\n"@ + rest) == "  "@ + x + "\n"@ + indent_lines(rest),
        (x + "\n"@ + rest).last() == (if rest.len() == 0 { '\n' } else { rest.last() }),
{
    reveal_strlit("\n");
    let nl = "\n"@;
    assert(indent_from(nl, false) =~= nl) by {
        reveal_with_fuel(indent_from, 2);
        assert(nl.drop_first() =~= Seq::<char>::empty());
    }
    lemma_indent_from_concat(x + nl, rest, true);
    lemma_indent_from_concat(x, nl, true);
    lemma_indent_single_line(x, true);
}

/// Rendering one level deeper indents every line of the rendering by two
/// more spaces: each node's line starts with two spaces per level of its
/// depth, and the nodes below it follow it one level deeper. Holds for
/// trees whose texts are single lines and whose depth stays clear of the
/// saturation of `usize`.
pub proof fn lemma_render_one_level_deeper(t: Trace, depth: usize)
    requires
        single_line_nodes(t),
        depth + depth_spec(t) < usize::MAX,
    ensures
        render_spec(t, (depth + 1) as usize) == indent_lines(render_spec(t, depth)),
        render_spec(t, depth).len() > 0,
        render_spec(t, depth).last() == '\n',
    decreases t,
{
    let d = depth as nat;
    lemma_indent_shape(d);
    lemma_separators_are_inline();
    match t {
        Trace::Leaf { label, origin } => {
            let x = indent(d) + label@ + "  <- "@ + origin_tag(origin);
            lemma_no_line_break_concat(indent(d), label@);
            lemma_no_line_break_concat(indent(d) + label@, "  <- "@);
            lemma_no_line_break_concat(indent(d) + label@ + "  <- "@, origin_tag(origin));
            lemma_indent_line_then(x, Seq::empty());
            assert(render_spec(t, depth) =~= x + "\n"@ + Seq::empty());
            assert(indent_lines(Seq::<char>::empty()) =~= Seq::<char>::empty());
            assert(render_spec(t, (depth + 1) as usize) =~= "  "@ + x + "\n"@ + Seq::empty());
        },
        Trace::Derived { label, op, inputs } => {
            let x = indent(d) + label@ + "  = "@ + op@;
            lemma_no_line_break_concat(indent(d), label@);
            lemma_no_line_break_concat(indent(d) + label@, "  = "@);
            lemma_no_line_break_concat(indent(d) + label@ + "  = "@, op@);
            if inputs@.len() > 0 {
                lemma_max_depth_bounds(inputs@, 0);
            }
            lemma_render_all_one_level_deeper(inputs@, (depth + 1) as usize);
            let r = render_all(inputs@, (depth + 1) as usize);
            lemma_indent_line_then(x, r);
            assert(render_spec(t, depth) =~= x + "\n"@ + r);
            if inputs@.len() == 0 {
                assert(render_all(inputs@, (depth + 2) as usize) =~= Seq::<char>::empty());
                assert(indent_lines(r) =~= Seq::<char>::empty());
            }
            assert(render_spec(t, (depth + 1) as usize) =~= "  "@ + x + "\n"@ + render_all(
                inputs@,
                (depth + 2) as usize,
            ));
        },
    }
}

/// [`lemma_render_one_level_deeper`] for the renderings of a list of traces.
proof fn lemma_render_all_one_level_deeper(ts: Seq<Arc<Trace>>, depth: usize)
    requires
        all_single_line(ts),
        depth + max_depth_of(ts) < usize::MAX,
    ensures
        render_all(ts, (depth + 1) as usize) == indent_lines(render_all(ts, depth)),
        render_all(ts, depth).len() == 0 || render_all(ts, depth).last() == '\n',
    decreases ts,
{
    if ts.len() == 0 {
        assert(indent_lines(Seq::<char>::empty()) =~= Seq::<char>::empty());
    } else {
        lemma_render_all_one_level_deeper(ts.drop_last(), depth);
        lemma_render_one_level_deeper(node_of(ts.last()), depth);
        let (a, b) = (render_all(ts.drop_last(), depth), render_spec(node_of(ts.last()), depth));
        lemma_indent_from_concat(a, b, true);
        assert((a + b).last() == b.last());
    }
}

} // verus!
