//! Two ready-made segment policies built on the scanning primitive: escaping
//! `\` and `"`, and one round of verbatim un-escaping.

use crate::cow::Cow;
use crate::scan::Transform;
use crate::scan::TransformNext;
use crate::scan::TransformedPart;
use crate::scan::any_changed;
use crate::scan::step_len;
use crate::scan::transformed_text;
use vstd::prelude::*;

verus! {

/// Segment policy of [`escape_double_quotes`]: one character per call;
/// `\` and `"` are replaced by themselves preceded by a backslash, every
/// other character is kept.
pub struct EscapeDoubleQuotes;

impl TransformNext for EscapeDoubleQuotes {
    open spec fn consumed(&self, rest: Seq<char>) -> int {
        1
    }

    open spec fn verdict(&self, rest: Seq<char>) -> Option<Seq<char>> {
        if rest.len() > 0 && (rest[0] == '\\' || rest[0] == '"') {
            Some(seq!['\\', rest[0]])
        } else {
            None
        }
    }

    open spec fn next_state(&self, rest: Seq<char>) -> Self {
        *self
    }

    fn transform_next(&mut self, rest: &mut &str) -> (part: TransformedPart) {
        let len = rest.unicode_len();
        let c = rest.get_char(0);
        let tail = rest.substring_char(1, len);
        *rest = tail;
        proof {
            assert(tail@ =~= old(rest)@.skip(1));
        }
        if c == '\\' {
            let changed = String::from_str("\\\\");
            proof {
                reveal_strlit("\\\\");
                assert(changed@ =~= seq!['\\', old(rest)@[0]]);
            }
            TransformedPart::Changed(changed)
        } else if c == '"' {
            let changed = String::from_str("\\\"");
            proof {
                reveal_strlit("\\\"");
                assert(changed@ =~= seq!['\\', old(rest)@[0]]);
            }
            TransformedPart::Changed(changed)
        } else {
            TransformedPart::Unchanged
        }
    }
}

/// What escaping produces: each `\` or `"` preceded by a backslash, every
/// other character kept, in order.
pub open spec fn escaped_text(s: Seq<char>) -> Seq<char>
    decreases s.len(),
{
    if s.len() == 0 {
        Seq::<char>::empty()
    } else {
        let head = if s[0] == '\\' || s[0] == '"' {
            seq!['\\', s[0]]
        } else {
            seq![s[0]]
        };
        head + escaped_text(s.skip(1))
    }
}

proof fn lemma_escape_scan_is_escaped_text(f: EscapeDoubleQuotes, s: Seq<char>)
    ensures
        transformed_text(f, s) == escaped_text(s),
        any_changed(f, s) <==> exists|i: int|
            0 <= i < s.len() && (s[i] == '\\' || s[i] == '"'),
    decreases s.len(),
{
    if s.len() != 0 {
        assert(step_len(f, s) == 1);
        lemma_escape_scan_is_escaped_text(f.next_state(s), s.skip(1));
        if !(s[0] == '\\' || s[0] == '"') {
            assert(s.take(1) =~= seq![s[0]]);
        }
        if any_changed(f, s) {
            if s[0] == '\\' || s[0] == '"' {
                assert(0 <= 0 < s.len() && (s[0] == '\\' || s[0] == '"'));
            } else {
                let i = choose|i: int|
                    0 <= i < s.skip(1).len() && (s.skip(1)[i] == '\\' || s.skip(1)[i] == '"');
                assert(s[i + 1] == s.skip(1)[i]);
            }
        }
        if exists|i: int| 0 <= i < s.len() && (s[i] == '\\' || s[i] == '"') {
            let i = choose|i: int| 0 <= i < s.len() && (s[i] == '\\' || s[i] == '"');
            if i > 0 {
                assert(s.skip(1)[i - 1] == s[i]);
            }
        }
    }
}

/// Replaces `\` and `"` in `string` with (respectively) `\\` and `\"`, as
/// lazily as possible: the result is `Cow::Borrowed` of `string` itself —
/// nothing allocated — exactly when `string` holds neither character.
#[must_use]
pub fn escape_double_quotes(string: &str) -> (r: Cow<'_>)
    ensures
        r@ == escaped_text(string@),
        (r is Borrowed) <==> (forall|i: int|
            0 <= i < string@.len() ==> string@[i] != '\\' && string@[i] != '"'),
        r matches Cow::Borrowed(b) ==> b@ == string@,
{
    proof {
        lemma_escape_scan_is_escaped_text(EscapeDoubleQuotes, string@);
    }
    string.transform(EscapeDoubleQuotes)
}

/// Segment policy of [`unescape_backslashed_verbatim`]: one character per
/// call; a backslash not itself preceded by an un-escaping backslash is
/// dropped, everything else — including the character right after such a
/// backslash — passes through literally.
pub struct UnescapeBackslashedVerbatim {
    /// Whether the character just consumed was a dropped backslash, so that
    /// the next character passes through even if it is `\`.
    pub escaped: bool,
}

impl TransformNext for UnescapeBackslashedVerbatim {
    open spec fn consumed(&self, rest: Seq<char>) -> int {
        1
    }

    open spec fn verdict(&self, rest: Seq<char>) -> Option<Seq<char>> {
        if rest.len() > 0 && rest[0] == '\\' && !self.escaped {
            Some(Seq::<char>::empty())
        } else {
            None
        }
    }

    open spec fn next_state(&self, rest: Seq<char>) -> Self {
        UnescapeBackslashedVerbatim {
            escaped: rest.len() > 0 && rest[0] == '\\' && !self.escaped,
        }
    }

    fn transform_next(&mut self, rest: &mut &str) -> (part: TransformedPart) {
        let len = rest.unicode_len();
        let c = rest.get_char(0);
        let tail = rest.substring_char(1, len);
        *rest = tail;
        proof {
            assert(tail@ =~= old(rest)@.skip(1));
        }
        if c == '\\' && !self.escaped {
            self.escaped = true;
            TransformedPart::Changed(String::new())
        } else {
            self.escaped = false;
            TransformedPart::Unchanged
        }
    }
}

/// What one round of un-escaping produces: a backslash met while `escaped`
/// is off is dropped and turns `escaped` on for the next character alone;
/// every other character is kept and turns it off.
pub open spec fn unescaped_text(s: Seq<char>, escaped: bool) -> Seq<char>
    decreases s.len(),
{
    if s.len() == 0 {
        Seq::<char>::empty()
    } else if s[0] == '\\' && !escaped {
        unescaped_text(s.skip(1), true)
    } else {
        seq![s[0]] + unescaped_text(s.skip(1), false)
    }
}

proof fn lemma_unescape_scan_is_unescaped_text(st: UnescapeBackslashedVerbatim, s: Seq<char>)
    ensures
        transformed_text(st, s) == unescaped_text(s, st.escaped),
    decreases s.len(),
{
    if s.len() != 0 {
        assert(step_len(st, s) == 1);
        lemma_unescape_scan_is_unescaped_text(st.next_state(s), s.skip(1));
        if !(s[0] == '\\' && !st.escaped) {
            assert(s.take(1) =~= seq![s[0]]);
        } else {
            assert(Seq::<char>::empty() + transformed_text(st.next_state(s), s.skip(1))
                =~= transformed_text(st.next_state(s), s.skip(1)));
        }
    }
}

proof fn lemma_unescape_changed_iff_backslash(st: UnescapeBackslashedVerbatim, s: Seq<char>)
    requires
        !st.escaped,
    ensures
        any_changed(st, s) <==> exists|i: int| 0 <= i < s.len() && s[i] == '\\',
    decreases s.len(),
{
    if s.len() != 0 {
        assert(step_len(st, s) == 1);
        if s[0] == '\\' {
            assert(0 <= 0 < s.len() && s[0] == '\\');
        } else {
            lemma_unescape_changed_iff_backslash(st.next_state(s), s.skip(1));
            if any_changed(st, s) {
                let i = choose|i: int| 0 <= i < s.skip(1).len() && s.skip(1)[i] == '\\';
                assert(s[i + 1] == s.skip(1)[i]);
            }
            if exists|i: int| 0 <= i < s.len() && s[i] == '\\' {
                let i = choose|i: int| 0 <= i < s.len() && s[i] == '\\';
                assert(s.skip(1)[i - 1] == s[i]);
            }
        }
    }
}

/// Replaces `\` followed by any character in `string` with that character,
/// as lazily as possible: one round of un-escaping. A `\\` pair is consumed
/// at once and leaves a single `\`; un-escaping such output once more
/// reduces it further. The result is `Cow::Borrowed` of `string` itself —
/// nothing allocated — exactly when `string` holds no backslash.
#[must_use]
pub fn unescape_backslashed_verbatim(string: &str) -> (r: Cow<'_>)
    ensures
        r@ == unescaped_text(string@, false),
        (r is Borrowed) <==> (forall|i: int| 0 <= i < string@.len() ==> string@[i] != '\\'),
        r matches Cow::Borrowed(b) ==> b@ == string@,
{
    let st = UnescapeBackslashedVerbatim { escaped: false };
    proof {
        lemma_unescape_scan_is_unescaped_text(st, string@);
        lemma_unescape_changed_iff_backslash(st, string@);
    }
    string.transform(st)
}

/// One round of un-escaping undoes one round of escaping: for every text,
/// [`unescape_backslashed_verbatim`] applied to the result of
/// [`escape_double_quotes`] restores the text it was given.
pub proof fn lemma_escape_then_unescape(s: Seq<char>)
    ensures
        unescaped_text(escaped_text(s), false) == s,
    decreases s.len(),
{
    if s.len() == 0 {
        assert(unescaped_text(escaped_text(s), false) =~= s);
    } else {
        let t = s.skip(1);
        lemma_escape_then_unescape(t);
        if s[0] == '\\' || s[0] == '"' {
            let u = seq!['\\', s[0]] + escaped_text(t);
            assert(escaped_text(s) == u);
            assert(u[0] == '\\');
            assert(u.len() > 0);
            assert(u.skip(1) =~= seq![s[0]] + escaped_text(t));
            let v = seq![s[0]] + escaped_text(t);
            assert(v.len() > 0 && v[0] == s[0]);
            assert(v.skip(1) =~= escaped_text(t));
            assert(unescaped_text(u, false) == unescaped_text(v, true));
            assert(unescaped_text(v, true) == seq![s[0]] + unescaped_text(escaped_text(t), false));
            assert(seq![s[0]] + t =~= s);
        } else {
            let u = seq![s[0]] + escaped_text(t);
            assert(escaped_text(s) == u);
            assert(u.len() > 0 && u[0] == s[0]);
            assert(u[0] != '\\');
            assert(u.skip(1) =~= escaped_text(t));
            assert(unescaped_text(u, false) == seq![s[0]] + unescaped_text(escaped_text(t), false));
            assert(seq![s[0]] + t =~= s);
        }
    }
}

} // verus!
