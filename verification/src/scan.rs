//! The scanning transformer: drives a caller-supplied segment function over a
//! string, deferring any allocation until the first segment actually changes.

use crate::cow::Cow;
use vstd::prelude::*;

verus! {

/// The outcome of one segment: the consumed span either stays as it is, or
/// is replaced by the carried text.
pub enum TransformedPart {
    Unchanged,
    Changed(String),
}

/// A segment function: the caller-supplied rule that consumes one span per
/// call and decides its fate. State the caller wants to thread across calls
/// (for example an "escaped" flag) lives in the implementing value itself.
///
/// The three spec functions pin the behaviour down: in a given state, on a
/// given remaining suffix, `consumed` says how many characters the call takes,
/// `verdict` whether the span is kept (`None`) or replaced (`Some` text), and
/// `next_state` the state afterwards. The executable method must follow all
/// three, must make strictly positive progress, and must leave the cursor a
/// suffix of what it was handed — which is what lets the driver terminate and
/// lets its result be described exactly.
pub trait TransformNext: Sized {
    /// How many characters one call consumes from `rest` in this state.
    spec fn consumed(&self, rest: Seq<char>) -> int;

    /// `None` when the consumed span is kept verbatim; `Some(text)` when it
    /// is replaced by `text`.
    spec fn verdict(&self, rest: Seq<char>) -> Option<Seq<char>>;

    /// The state after one call on `rest`.
    spec fn next_state(&self, rest: Seq<char>) -> Self;

    /// Consume a strictly positive prefix of the non-empty cursor `rest`,
    /// advancing it in place, and report whether that prefix is kept or
    /// replaced.
    fn transform_next(&mut self, rest: &mut &str) -> (part: TransformedPart)
        requires
            old(rest)@.len() > 0,
        ensures
            0 < old(self).consumed(old(rest)@) <= old(rest)@.len(),
            final(rest)@ == old(rest)@.skip(old(self).consumed(old(rest)@)),
            *final(self) == old(self).next_state(old(rest)@),
            (match part {
                TransformedPart::Unchanged => old(self).verdict(old(rest)@) is None,
                TransformedPart::Changed(repl) => old(self).verdict(old(rest)@) == Some(repl@),
            }),
    ;
}

/// The length of the span one call of `f` consumes from `rest`, clamped into
/// `1 ..= rest.len()` so that the recursion below is well defined for every
/// `TransformNext`. For any implementation that can execute, the contract of
/// [`TransformNext::transform_next`] puts `consumed` in that range already,
/// so the clamp never takes effect.
pub open spec fn step_len<F: TransformNext>(f: F, rest: Seq<char>) -> int {
    let k = f.consumed(rest);
    if 0 < k <= rest.len() {
        k
    } else {
        rest.len() as int
    }
}

/// What scanning `rest` with segment function `f` produces: the
/// concatenation, in order, of each segment's contribution — the consumed
/// span itself where the verdict keeps it, the replacement text where it does
/// not — covering `rest` exactly once.
pub open spec fn transformed_text<F: TransformNext>(f: F, rest: Seq<char>) -> Seq<char>
    decreases rest.len(),
{
    if rest.len() == 0 {
        Seq::<char>::empty()
    } else {
        let k = step_len(f, rest);
        let head = match f.verdict(rest) {
            Option::None => rest.take(k),
            Option::Some(repl) => repl,
        };
        head + transformed_text(f.next_state(rest), rest.skip(k))
    }
}

/// Whether any segment of the scan of `rest` with `f` reports a change.
pub open spec fn any_changed<F: TransformNext>(f: F, rest: Seq<char>) -> bool
    decreases rest.len(),
{
    if rest.len() == 0 {
        false
    } else {
        f.verdict(rest) is Some || any_changed(f.next_state(rest), rest.skip(step_len(f, rest)))
    }
}

proof fn lemma_skip_skip(s: Seq<char>, p: int, k: int)
    requires
        0 <= p,
        0 <= k,
        p + k <= s.len(),
    ensures
        s.skip(p).skip(k) == s.skip(p + k),
{
    assert(s.skip(p).skip(k) =~= s.skip(p + k));
}

proof fn lemma_take_grows(s: Seq<char>, p: int, k: int)
    requires
        0 <= p,
        0 <= k,
        p + k <= s.len(),
    ensures
        s.take(p) + s.skip(p).take(k) == s.take(p + k),
{
    assert(s.take(p) + s.skip(p).take(k) =~= s.take(p + k));
}

/// Helper trait that offers [`transform`] as a method on `str`.
pub trait Transform: View<V = Seq<char>> {
    /// Scan `self` with `transform_next`; see the free function [`transform`].
    fn transform<'a, F: TransformNext>(&'a self, transform_next: F) -> (r: Cow<'a>)
        ensures
            r@ == transformed_text(transform_next, self@),
            (r is Borrowed) <==> !any_changed(transform_next, self@),
            r matches Cow::Borrowed(b) ==> b@ == self@,
    ;
}

impl Transform for str {
    #[verifier::loop_isolation(false)]
    fn transform<'a, F: TransformNext>(&'a self, transform_next: F) -> (r: Cow<'a>) {
        let ghost f0 = transform_next;
        let mut f = transform_next;
        let n = self.unicode_len();
        let mut rest: &str = self;
        loop
            invariant
                n == self@.len(),
                rest@.len() <= self@.len(),
                rest@ == self@.skip(self@.len() - rest@.len()),
                transformed_text(f0, self@) == self@.take(self@.len() - rest@.len())
                    + transformed_text(f, rest@),
                any_changed(f0, self@) == any_changed(f, rest@),
            decreases rest@.len(),
        {
            if rest.is_empty() {
                proof {
                    assert(self@.take(self@.len() - 0) =~= self@);
                    assert(transformed_text(f0, self@) =~= self@);
                }
                return Cow::Borrowed(self);
            }
            let before_len = rest.unicode_len();
            let ghost f_prev = f;
            let ghost rest_prev = rest@;
            let ghost p = self@.len() - rest_prev.len();
            match f.transform_next(&mut rest) {
                TransformedPart::Unchanged => {
                    proof {
                        let k = f_prev.consumed(rest_prev);
                        assert(step_len(f_prev, rest_prev) == k);
                        lemma_skip_skip(self@, p, k);
                        lemma_take_grows(self@, p, k);
                        assert(self@.skip(p).take(k) == rest_prev.take(k));
                        assert(self@.take(p) + (rest_prev.take(k) + transformed_text(f, rest@))
                            =~= (self@.take(p) + rest_prev.take(k)) + transformed_text(f, rest@));
                    }
                },
                TransformedPart::Changed(repl) => {
                    let prefix = self.substring_char(0, n - before_len);
                    let mut copied = String::from_str(prefix);
                    copied.append(repl.as_str());
                    proof {
                        let k = f_prev.consumed(rest_prev);
                        assert(step_len(f_prev, rest_prev) == k);
                        lemma_skip_skip(self@, p, k);
                        assert(self@.subrange(0, p) =~= self@.take(p));
                        assert(self@.take(p) + (repl@ + transformed_text(f, rest@))
                            =~= (self@.take(p) + repl@) + transformed_text(f, rest@));
                    }
                    let out = accumulate(self, rest, copied, f);
                    return Cow::Owned(out);
                },
            }
        }
    }
}

/// The accumulate-and-copy phase, entered once the first change is known:
/// extends `copied` with each remaining segment's contribution and returns
/// the finished buffer.
#[verifier::loop_isolation(false)]
fn accumulate<F: TransformNext>(input: &str, rest: &str, copied: String, f: F) -> (r: String)
    requires
        rest@.len() <= input@.len(),
        rest@ == input@.skip(input@.len() - rest@.len()),
    ensures
        r@ == copied@ + transformed_text(f, rest@),
{
    let n = input.unicode_len();
    let mut rest = rest;
    let mut copied = copied;
    let mut f = f;
    let ghost copied0 = copied@;
    let ghost frozen = f;
    let ghost rest0 = rest@;
    loop
        invariant
            n == input@.len(),
            rest@.len() <= input@.len(),
            rest@ == input@.skip(input@.len() - rest@.len()),
            copied0 + transformed_text(frozen, rest0) == copied@ + transformed_text(f, rest@),
        decreases rest@.len(),
    {
        if rest.is_empty() {
            proof {
                assert(copied@ + transformed_text(f, rest@) =~= copied@);
            }
            return copied;
        }
        let before_len = rest.unicode_len();
        let ghost f_prev = f;
        let ghost rest_prev = rest@;
        let ghost p = input@.len() - rest_prev.len();
        match f.transform_next(&mut rest) {
            TransformedPart::Unchanged => {
                let after_len = rest.unicode_len();
                let span = input.substring_char(n - before_len, n - after_len);
                copied.append(span);
                proof {
                    let k = f_prev.consumed(rest_prev);
                    assert(step_len(f_prev, rest_prev) == k);
                    lemma_skip_skip(input@, p, k);
                    assert(input@.subrange(p, p + k) =~= rest_prev.take(k));
                    assert((copied0 + transformed_text(frozen, rest0))
                        =~= copied@ + transformed_text(f, rest@));
                }
            },
            TransformedPart::Changed(repl) => {
                copied.append(repl.as_str());
                proof {
                    let k = f_prev.consumed(rest_prev);
                    assert(step_len(f_prev, rest_prev) == k);
                    lemma_skip_skip(input@, p, k);
                    assert((copied0 + transformed_text(frozen, rest0))
                        =~= copied@ + transformed_text(f, rest@));
                }
            },
        }
    }
}

/// Scans `input` left to right with `transform_next`, as lazily as possible.
///
/// Each call of `transform_next` is handed the non-empty remaining suffix as
/// a cursor, consumes a strictly positive prefix of it in place, and reports
/// whether that span stays or is replaced. The scan ends once the cursor is
/// empty. While every verdict keeps its span, nothing is allocated; if that
/// holds for the whole input, the result is `Cow::Borrowed` of the input
/// itself. On the first replacement an output buffer is created, seeded with
/// everything consumed so far, and from then on every segment's contribution
/// is appended to it; the result is then `Cow::Owned` of that buffer.
pub fn transform<'a, F: TransformNext>(input: &'a str, transform_next: F) -> (r: Cow<'a>)
    ensures
        r@ == transformed_text(transform_next, input@),
        (r is Borrowed) <==> !any_changed(transform_next, input@),
        r matches Cow::Borrowed(b) ==> b@ == input@,
{
    input.transform(transform_next)
}

/// The consumed spans of a scan: the pieces of `rest`, in order, that the
/// successive segment calls take.
pub open spec fn consumed_spans<F: TransformNext>(f: F, rest: Seq<char>) -> Seq<Seq<char>>
    decreases rest.len(),
{
    if rest.len() == 0 {
        Seq::<Seq<char>>::empty()
    } else {
        let k = step_len(f, rest);
        seq![rest.take(k)] + consumed_spans(f.next_state(rest), rest.skip(k))
    }
}

/// The per-segment contributions of a scan, in order: the consumed span
/// itself where the verdict keeps it, the replacement text where it does not.
pub open spec fn contributions<F: TransformNext>(f: F, rest: Seq<char>) -> Seq<Seq<char>>
    decreases rest.len(),
{
    if rest.len() == 0 {
        Seq::<Seq<char>>::empty()
    } else {
        let k = step_len(f, rest);
        let head = match f.verdict(rest) {
            Option::None => rest.take(k),
            Option::Some(repl) => repl,
        };
        seq![head] + contributions(f.next_state(rest), rest.skip(k))
    }
}

/// Coverage law: the consumed spans of a scan tile the input exactly once —
/// concatenated in order they rebuild it, with no gap and no overlap — and
/// concatenating, in order, each segment's contribution rebuilds exactly the
/// text that [`transform`] ensures as its result.
pub proof fn lemma_scan_covers_input<F: TransformNext>(f: F, rest: Seq<char>)
    ensures
        consumed_spans(f, rest).flatten() == rest,
        contributions(f, rest).flatten() == transformed_text(f, rest),
    decreases rest.len(),
{
    if rest.len() == 0 {
        assert(consumed_spans(f, rest).flatten() =~= rest);
        assert(contributions(f, rest).flatten() =~= transformed_text(f, rest));
    } else {
        let k = step_len(f, rest);
        lemma_scan_covers_input(f.next_state(rest), rest.skip(k));
        let spans = consumed_spans(f, rest);
        assert(spans.drop_first() =~= consumed_spans(f.next_state(rest), rest.skip(k)));
        assert(spans.flatten() == rest.take(k) + consumed_spans(f.next_state(rest), rest.skip(k)).flatten());
        assert(rest.take(k) + rest.skip(k) =~= rest);
        let conts = contributions(f, rest);
        assert(conts.drop_first() =~= contributions(f.next_state(rest), rest.skip(k)));
        assert(conts.flatten() == conts.first() + contributions(f.next_state(rest), rest.skip(k)).flatten());
    }
}

/// A segment policy that consumes one character per call and keeps every
/// span as it is. Scanning with it reproduces the input as `Cow::Borrowed`,
/// allocation-free, whatever the input.
pub struct KeepUnchanged;

impl TransformNext for KeepUnchanged {
    open spec fn consumed(&self, rest: Seq<char>) -> int {
        1
    }

    open spec fn verdict(&self, rest: Seq<char>) -> Option<Seq<char>> {
        None
    }

    open spec fn next_state(&self, rest: Seq<char>) -> Self {
        *self
    }

    fn transform_next(&mut self, rest: &mut &str) -> (part: TransformedPart) {
        let len = rest.unicode_len();
        let tail = rest.substring_char(1, len);
        proof {
            assert(tail@ =~= old(rest)@.skip(1));
        }
        *rest = tail;
        TransformedPart::Unchanged
    }
}

/// Identity law: a scan in which every segment keeps its span reproduces the
/// input exactly. Together with the contract of [`transform`] — which returns
/// `Cow::Borrowed`, and so allocates nothing, precisely when no segment
/// changes — this says such a scan hands the input back as it is.
pub proof fn lemma_unchanged_is_identity<F: TransformNext>(f: F, rest: Seq<char>)
    requires
        !any_changed(f, rest),
    ensures
        transformed_text(f, rest) == rest,
    decreases rest.len(),
{
    if rest.len() == 0 {
        assert(transformed_text(f, rest) =~= rest);
    } else {
        let k = step_len(f, rest);
        lemma_unchanged_is_identity(f.next_state(rest), rest.skip(k));
        assert(rest.take(k) + rest.skip(k) =~= rest);
    }
}

/// No-allocation law: a segment function whose verdict is `None` in every
/// state, on every suffix, never reports a change, so by the contract of
/// [`transform`] the scan returns `Cow::Borrowed` and no buffer is ever
/// created.
pub proof fn lemma_never_changed_stays_borrowed<F: TransformNext>(f: F, rest: Seq<char>)
    requires
        forall|g: F, s: Seq<char>| #[trigger] g.verdict(s) is None,
    ensures
        !any_changed(f, rest),
    decreases rest.len(),
{
    if rest.len() != 0 {
        lemma_never_changed_stays_borrowed(f.next_state(rest), rest.skip(step_len(f, rest)));
    }
}

} // verus!
