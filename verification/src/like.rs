//! Pattern matching as SQL's `LIKE` does it.
use vstd::prelude::*;
use vstd::utf8::encode_utf8;

use crate::text::{ascii_fold, ascii_lower, ascii_lower_char, chars, contains, occurs_at};

verus! {

/// The most bytes that a pattern may take.
pub const MAX_PATTERN_BYTES: usize = 50000;

// ------------------------------------------------------------ specifications
/// Whether a text matches a pattern, both as they are read: `%` stands for any
/// characters, `_` for one and a backslash makes the next character stand for itself.
/// ASCII letters match in either case.
pub open spec fn matched(text: Seq<char>, pattern: Seq<char>) -> bool
    decreases pattern.len() + text.len(),
{
    if pattern.len() == 0 {
        text.len() == 0
    } else if pattern[0] == '%' {
        matched(text, pattern.skip(1)) || (text.len() > 0 && matched(text.skip(1), pattern))
    } else if pattern[0] == '_' {
        text.len() > 0 && matched(text.skip(1), pattern.skip(1))
    } else if pattern[0] == '\\' {
        pattern.len() > 1 && text.len() > 0 && ascii_lower(pattern[1]) == ascii_lower(text[0])
            && matched(text.skip(1), pattern.skip(2))
    } else {
        text.len() > 0 && ascii_lower(pattern[0]) == ascii_lower(text[0]) && matched(
            text.skip(1),
            pattern.skip(1),
        )
    }
}

/// The character that `LIKE` reads: U+FFFE and U+FFFF are no characters to it, and read
/// as U+FFFD.
pub open spec fn read_char(c: char) -> char {
    if c == '\u{fffe}' || c == '\u{ffff}' {
        '\u{fffd}'
    } else {
        c
    }
}

/// What `LIKE` reads of a text: it ends before the first U+0000.
pub open spec fn read_text(s: Seq<char>) -> Seq<char>
    decreases s.len(),
{
    if s.len() == 0 || s[0] == '\0' {
        Seq::empty()
    } else {
        seq![read_char(s[0])] + read_text(s.skip(1))
    }
}

/// Whether `text` matches `pattern`.
pub open spec fn like(text: Seq<char>, pattern: Seq<char>) -> bool {
    matched(read_text(text), read_text(pattern))
}

/// Whether a pattern takes too many bytes to be matched.
pub open spec fn too_complex(pattern: Seq<char>) -> bool {
    encode_utf8(pattern).len() > MAX_PATTERN_BYTES
}

/// What is said of a pattern that takes too many bytes.
pub open spec fn complexity() -> Seq<char> {
    "LIKE or GLOB pattern too complex"@
}

/// Whether a character has a meaning of its own in a pattern.
pub open spec fn is_special(c: char) -> bool {
    c == '\\' || c == '%' || c == '_'
}

/// A text as a pattern that stands for itself.
pub open spec fn escaped(s: Seq<char>) -> Seq<char>
    decreases s.len(),
{
    if s.len() == 0 {
        Seq::empty()
    } else if is_special(s.last()) {
        escaped(s.drop_last()).push('\\').push(s.last())
    } else {
        escaped(s.drop_last()).push(s.last())
    }
}

/// The pattern for texts that hold something matching `p`.
pub open spec fn anywhere(p: Seq<char>) -> Seq<char> {
    seq!['%'] + p + seq!['%']
}

// ---------------------------------------------------------------------- laws
proof fn lemma_escaped_head(s: Seq<char>)
    requires
        s.len() > 0,
    ensures
        escaped(s) == if is_special(s[0]) {
            seq!['\\', s[0]] + escaped(s.skip(1))
        } else {
            seq![s[0]] + escaped(s.skip(1))
        },
    decreases s.len(),
{
    if s.len() == 1 {
        assert(s.drop_last() =~= Seq::<char>::empty());
        assert(s.skip(1) =~= Seq::<char>::empty());
        assert(escaped(s.drop_last()) =~= Seq::<char>::empty());
        assert(escaped(s.skip(1)) =~= Seq::<char>::empty());
        assert(escaped(s) =~= if is_special(s[0]) {
            seq!['\\', s[0]] + escaped(s.skip(1))
        } else {
            seq![s[0]] + escaped(s.skip(1))
        });
    } else {
        let h = s.drop_last();
        lemma_escaped_head(h);
        assert(s.skip(1).drop_last() =~= h.skip(1));
        assert(s.skip(1).last() == s.last());
        assert(escaped(s) =~= if is_special(s[0]) {
            seq!['\\', s[0]] + escaped(s.skip(1))
        } else {
            seq![s[0]] + escaped(s.skip(1))
        });
    }
}

/// An escaped text followed by a pattern matches what begins with that text, in
/// either case of ASCII letters, and goes on as the pattern says.
proof fn lemma_matched_escaped(text: Seq<char>, s: Seq<char>, rest: Seq<char>)
    ensures
        matched(text, escaped(s) + rest) == (s.len() <= text.len() && ascii_fold(
            text.take(s.len() as int),
        ) == ascii_fold(s) && matched(text.skip(s.len() as int), rest)),
    decreases s.len(),
{
    if s.len() == 0 {
        assert(escaped(s) + rest =~= rest);
        assert(text.skip(0) =~= text);
        assert(ascii_fold(text.take(0)) =~= ascii_fold(s));
    } else {
        lemma_escaped_head(s);
        let p = escaped(s) + rest;
        let tail = s.skip(1);
        if is_special(s[0]) {
            assert(p.skip(2) =~= escaped(tail) + rest);
            assert(p[0] == '\\');
            assert(p[1] == s[0]);
        } else {
            assert(p.skip(1) =~= escaped(tail) + rest);
            assert(p[0] == s[0]);
        }
        if text.len() > 0 {
            lemma_matched_escaped(text.skip(1), tail, rest);
            if s.len() <= text.len() {
                let n = s.len() as int;
                assert(text.skip(1).skip(tail.len() as int) =~= text.skip(n));
                let a = ascii_fold(text.take(n));
                let b = ascii_fold(s);
                let c = ascii_fold(text.skip(1).take(tail.len() as int));
                let d = ascii_fold(tail);
                assert(c =~= a.skip(1));
                assert(d =~= b.skip(1));
                assert(a[0] == ascii_lower(text[0]));
                assert(b[0] == ascii_lower(s[0]));
                if ascii_lower(text[0]) == ascii_lower(s[0]) && c == d {
                    assert(a =~= seq![a[0]] + a.skip(1));
                    assert(b =~= seq![b[0]] + b.skip(1));
                }
            }
        }
    }
}

proof fn lemma_matched_all(text: Seq<char>)
    ensures
        matched(text, seq!['%']),
    decreases text.len(),
{
    let p = seq!['%'];
    assert(p.skip(1) =~= Seq::<char>::empty());
    if text.len() > 0 {
        lemma_matched_all(text.skip(1));
    } else {
        assert(matched(text, p.skip(1)));
    }
}

proof fn lemma_matched_anywhere(text: Seq<char>, word: Seq<char>)
    ensures
        matched(text, anywhere(escaped(word))) == contains(ascii_fold(text), ascii_fold(word)),
    decreases text.len(),
{
    let end = seq!['%'];
    let p = anywhere(escaped(word));
    let n = word.len() as int;
    assert(p.skip(1) =~= escaped(word) + end);
    lemma_matched_escaped(text, word, end);
    if n <= text.len() {
        lemma_matched_all(text.skip(n));
        assert(ascii_fold(text).subrange(0, n) =~= ascii_fold(text.take(n)));
    }
    let t = ascii_fold(text);
    let w = ascii_fold(word);
    if occurs_at(t, w, 0) {
        assert(contains(t, w));
    }
    if text.len() > 0 {
        lemma_matched_anywhere(text.skip(1), word);
        let u = ascii_fold(text.skip(1));
        assert(u =~= t.skip(1));
        if contains(u, w) {
            let k = choose|k: int| #[trigger] occurs_at(u, w, k);
            assert(t.subrange(k + 1, k + 1 + w.len()) =~= u.subrange(k, k + w.len()));
            assert(occurs_at(t, w, k + 1));
        }
        if contains(t, w) {
            let k = choose|k: int| #[trigger] occurs_at(t, w, k);
            if k > 0 {
                assert(u.subrange(k - 1, k - 1 + w.len()) =~= t.subrange(k, k + w.len()));
                assert(occurs_at(u, w, k - 1));
            }
        }
    } else if contains(t, w) {
        let k = choose|k: int| #[trigger] occurs_at(t, w, k);
        assert(k == 0);
    }
}

proof fn lemma_read_joined(a: Seq<char>, b: Seq<char>)
    requires
        forall|i: int| 0 <= i < a.len() ==> #[trigger] a[i] != '\0',
    ensures
        read_text(a + b) == read_text(a) + read_text(b),
    decreases a.len(),
{
    if a.len() == 0 {
        assert(a + b =~= b);
        assert(read_text(a) + read_text(b) =~= read_text(b));
    } else {
        assert((a + b).skip(1) =~= a.skip(1) + b);
        assert forall|i: int| 0 <= i < a.skip(1).len() implies #[trigger] a.skip(1)[i] != '\0' by {
            assert(a[i + 1] != '\0');
        }
        assert(a[0] != '\0');
        lemma_read_joined(a.skip(1), b);
        assert(read_text(a + b) =~= read_text(a) + read_text(b));
    }
}

proof fn lemma_read_escaped(s: Seq<char>)
    requires
        forall|i: int| 0 <= i < s.len() ==> #[trigger] s[i] != '\0',
    ensures
        read_text(escaped(s)) == escaped(read_text(s)),
        forall|i: int| 0 <= i < escaped(s).len() ==> #[trigger] escaped(s)[i] != '\0',
    decreases s.len(),
{
    if s.len() > 0 {
        let h = s.drop_last();
        let c = s.last();
        assert forall|i: int| 0 <= i < h.len() implies #[trigger] h[i] != '\0' by {
            assert(s[i] != '\0');
        }
        assert(s[s.len() - 1] != '\0');
        lemma_read_escaped(h);
        let end = if is_special(c) {
            seq!['\\', c]
        } else {
            seq![c]
        };
        assert(escaped(s) =~= escaped(h) + end);
        lemma_read_joined(escaped(h), end);
        assert(s =~= h + seq![c]);
        lemma_read_joined(h, seq![c]);
        assert(seq![c].skip(1) =~= Seq::<char>::empty());
        assert(read_text(seq![c].skip(1)) =~= Seq::empty());
        assert(read_text(seq![c]) =~= seq![read_char(c)]);
        if is_special(c) {
            assert(end.skip(1) =~= seq![c]);
            assert(read_text(end) =~= end);
        } else {
            assert(!is_special(read_char(c)));
        }
        assert((read_text(h) + seq![read_char(c)]).drop_last() =~= read_text(h));
        assert(read_text(escaped(s)) =~= escaped(read_text(s)));
    }
}

/// A search is literal: a text matches an escaped word anywhere exactly if it
/// holds that word, in either case of ASCII letters, both as they are read.
pub proof fn search_is_literal(text: Seq<char>, word: Seq<char>)
    requires
        forall|i: int| 0 <= i < word.len() ==> #[trigger] word[i] != '\0',
    ensures
        like(text, anywhere(escaped(word))) == contains(
            ascii_fold(read_text(text)),
            ascii_fold(read_text(word)),
        ),
{
    let end = seq!['%'];
    let p = escaped(word);
    lemma_read_escaped(word);
    lemma_read_joined(end + p, end);
    lemma_read_joined(end, p);
    assert(end.skip(1) =~= Seq::<char>::empty());
    assert(read_text(end.skip(1)) =~= Seq::empty());
    assert(read_text(end) =~= end);
    assert(read_text(anywhere(p)) =~= anywhere(escaped(read_text(word))));
    lemma_matched_anywhere(read_text(text), read_text(word));
}

/// What holds neither U+0000 nor what reads as another character is read as it is.
pub proof fn ordinary_texts_are_read_as_they_are(s: Seq<char>)
    requires
        forall|i: int|
            0 <= i < s.len() ==> #[trigger] s[i] != '\0' && s[i] != '\u{fffe}' && s[i]
                != '\u{ffff}',
    ensures
        read_text(s) == s,
    decreases s.len(),
{
    if s.len() > 0 {
        let t = s.skip(1);
        assert forall|i: int| 0 <= i < t.len() implies #[trigger] t[i] != '\0' && t[i]
            != '\u{fffe}' && t[i] != '\u{ffff}' by {
            assert(s[i + 1] != '\0');
        }
        assert(s[0] != '\0');
        ordinary_texts_are_read_as_they_are(t);
    }
    assert(read_text(s) =~= s);
}

// ---------------------------------------------------------------- operations
/// A text as a pattern that stands for itself.
pub fn escape_like(value: &str) -> (r: String)
    ensures
        r@ == escaped(value@),
{
    let v = chars(value);
    let mut r = String::new();
    let mut i: usize = 0;
    proof {
        assert(value@.take(0) =~= Seq::<char>::empty());
        assert(r@ =~= Seq::<char>::empty());
    }
    while i < v.len()
        invariant
            i <= v.len(),
            v@ == value@,
            r@ == escaped(value@.take(i as int)),
        decreases v.len() - i,
    {
        proof {
            assert(value@.take(i + 1).drop_last() =~= value@.take(i as int));
            assert(value@.take(i + 1).last() == v@[i as int]);
        }
        let c = v[i];
        if c == '\\' || c == '%' || c == '_' {
            r.push('\\');
        }
        r.push(c);
        i += 1;
    }
    assert(value@.take(i as int) =~= value@);
    r
}

fn read_like(s: &Vec<char>) -> (r: Vec<char>)
    ensures
        r@ == read_text(s@),
{
    let mut r: Vec<char> = Vec::new();
    let mut i: usize = 0;
    proof {
        assert(s@.skip(0) =~= s@);
        assert(r@ + read_text(s@) =~= read_text(s@));
    }
    while i < s.len() && s[i] != '\0'
        invariant
            i <= s.len(),
            read_text(s@) == r@ + read_text(s@.skip(i as int)),
        ensures
            i <= s.len(),
            read_text(s@) == r@ + read_text(s@.skip(i as int)),
            i == s.len() || s@[i as int] == '\0',
        decreases s.len() - i,
    {
        let c = s[i];
        let ghost before = r@;
        r.push(
            if c == '\u{fffe}' || c == '\u{ffff}' {
                '\u{fffd}'
            } else {
                c
            },
        );
        proof {
            let rest = s@.skip(i as int);
            assert(rest[0] == c);
            assert(rest.skip(1) =~= s@.skip(i + 1));
            assert(before + read_text(rest) =~= r@ + read_text(rest.skip(1)));
        }
        i += 1;
    }
    assert(r@ + read_text(s@.skip(i as int)) =~= r@);
    r
}

/// From which positions on a text matches a pattern: `hits` says it of each character,
/// `end` of the end.
struct Hits {
    hits: Vec<bool>,
    end: bool,
}

/// Whether it is said rightly.
spec fn is_told(h: Hits, text: Seq<char>, pattern: Seq<char>) -> bool {
    &&& h.hits.len() == text.len()
    &&& h.end == matched(Seq::empty(), pattern)
    &&& forall|j: int|
        0 <= j < text.len() ==> #[trigger] h.hits@[j] == matched(text.skip(j), pattern)
}

/// Whether a text matches from a position on.
fn hit_at(h: &Hits, at: usize) -> (r: bool)
    requires
        at <= h.hits.len(),
    ensures
        forall|text: Seq<char>, pattern: Seq<char>| #[trigger]
            is_told(*h, text, pattern) ==> r == matched(text.skip(at as int), pattern),
{
    proof {
        assert forall|text: Seq<char>, pattern: Seq<char>| #[trigger]
            is_told(*h, text, pattern) && at == h.hits.len() implies text.skip(at as int)
            == Seq::<char>::empty() by {
            assert(text.skip(at as int) =~= Seq::<char>::empty());
        }
    }
    if at == h.hits.len() {
        h.end
    } else {
        h.hits[at]
    }
}

/// From which positions on `text` matches the pattern from `from` on, given the same for
/// the pattern from one and from two characters further on.
fn match_from(
    text: &Vec<char>,
    pattern: &Vec<char>,
    from: usize,
    next: &Hits,
    after: &Hits,
) -> (r: Hits)
    requires
        from < pattern.len(),
        is_told(*next, text@, pattern@.skip(from + 1)),
        from + 1 < pattern.len() ==> is_told(*after, text@, pattern@.skip(from + 2)),
    ensures
        is_told(r, text@, pattern@.skip(from as int)),
{
    let ghost p = pattern@.skip(from as int);
    let n: usize = text.len();
    let c = pattern[from];
    proof {
        assert(p[0] == c);
        assert(p.skip(1) =~= pattern@.skip(from + 1));
        if from + 1 < pattern.len() {
            assert(p[1] == pattern@[from + 1]);
            assert(p.skip(2) =~= pattern@.skip(from + 2));
        }
    }
    let end = c == '%' && next.end;
    let mut hits: Vec<bool> = Vec::new();
    let mut k: usize = 0;
    while k < n
        invariant
            k <= n,
            hits.len() == k,
        decreases n - k,
    {
        hits.push(false);
        k += 1;
    }
    let mut row = Hits { hits, end };
    let mut at: usize = n;
    while at > 0
        invariant
            at <= n,
            n == text.len(),
            row.hits.len() == n,
            from < pattern.len(),
            c == pattern@[from as int],
            p == pattern@.skip(from as int),
            p[0] == c,
            p.skip(1) == pattern@.skip(from + 1),
            from + 1 < pattern.len() ==> p[1] == pattern@[from + 1] && p.skip(2)
                == pattern@.skip(from + 2),
            is_told(*next, text@, pattern@.skip(from + 1)),
            from + 1 < pattern.len() ==> is_told(*after, text@, pattern@.skip(from + 2)),
            row.end == matched(Seq::empty(), p),
            forall|j: int| at <= j < n ==> #[trigger] row.hits@[j] == matched(text@.skip(j), p),
        decreases at,
    {
        at -= 1;
        let further = if at + 1 == n {
            row.end
        } else {
            row.hits[at + 1]
        };
        proof {
            let t = text@.skip(at as int);
            assert(t[0] == text@[at as int]);
            assert(t.skip(1) =~= text@.skip(at + 1));
            if at + 1 == n {
                assert(t.skip(1) =~= Seq::<char>::empty());
            }
            assert(further == matched(t.skip(1), p));
        }
        let hit = if c == '%' {
            hit_at(next, at) || further
        } else if c == '_' {
            hit_at(next, at + 1)
        } else if c == '\\' {
            from + 1 < pattern.len() && ascii_lower_char(pattern[from + 1]) == ascii_lower_char(
                text[at],
            ) && hit_at(after, at + 1)
        } else {
            ascii_lower_char(c) == ascii_lower_char(text[at]) && hit_at(next, at + 1)
        };
        row.hits.set(at, hit);
    }
    row
}

fn is_matched(text: &Vec<char>, pattern: &Vec<char>) -> (r: bool)
    ensures
        r == matched(text@, pattern@),
{
    let n: usize = text.len();
    let mut hits: Vec<bool> = Vec::new();
    let mut k: usize = 0;
    while k < n
        invariant
            k <= n,
            hits.len() == k,
            forall|j: int| 0 <= j < k ==> #[trigger] hits@[j] == false,
        decreases n - k,
    {
        hits.push(false);
        k += 1;
    }
    let mut from: usize = pattern.len();
    proof {
        assert(pattern@.skip(from as int) =~= Seq::<char>::empty());
        assert forall|j: int| 0 <= j < n implies #[trigger] hits@[j] == matched(
            text@.skip(j),
            pattern@.skip(from as int),
        ) by {
            assert(text@.skip(j).len() == n - j);
        }
    }
    let mut next = Hits { hits, end: true };
    let mut after = Hits { hits: Vec::new(), end: false };
    while from > 0
        invariant
            from <= pattern.len(),
            is_told(next, text@, pattern@.skip(from as int)),
            from < pattern.len() ==> is_told(after, text@, pattern@.skip(from + 1)),
        decreases from,
    {
        from -= 1;
        let row = match_from(text, pattern, from, &next, &after);
        after = next;
        next = row;
    }
    assert(text@.skip(0) =~= text@);
    assert(pattern@.skip(0) =~= pattern@);
    hit_at(&next, 0)
}

/// Whether `text` matches `pattern`.
pub fn is_like(text: &Vec<char>, pattern: &Vec<char>) -> (r: bool)
    ensures
        r == like(text@, pattern@),
{
    let text = read_like(text);
    let pattern = read_like(pattern);
    is_matched(&text, &pattern)
}

/// Whether the pattern for texts that hold something matching `p` takes too many bytes.
pub fn is_too_complex(p: &str) -> (r: bool)
    ensures
        r == too_complex(anywhere(p@)),
{
    proof {
        reveal_strlit("%");
        assert("%"@ =~= seq!['%']);
    }
    let pattern = "%".to_owned().concat(p).concat("%");
    pattern.as_str().as_bytes().len() > MAX_PATTERN_BYTES
}

/// What is said of a pattern that takes too many bytes.
pub fn complexity_error() -> (e: String)
    ensures
        e@ == complexity(),
{
    "LIKE or GLOB pattern too complex".to_owned()
}

/// The pattern for texts that hold something matching `p`.
pub fn anywhere_pattern(p: &str) -> (v: Vec<char>)
    ensures
        v@ == anywhere(p@),
{
    let inner = chars(p);
    let mut v: Vec<char> = Vec::new();
    v.push('%');
    let mut i: usize = 0;
    while i < inner.len()
        invariant
            i <= inner.len(),
            inner@ == p@,
            v@ == seq!['%'] + p@.take(i as int),
        decreases inner.len() - i,
    {
        v.push(inner[i]);
        i += 1;
        assert(seq!['%'] + p@.take(i as int) =~= (seq!['%'] + p@.take(i - 1)).push(p@[i - 1]));
    }
    assert(p@.take(i as int) =~= p@);
    v.push('%');
    assert(v@ =~= anywhere(p@));
    v
}

} // verus!
