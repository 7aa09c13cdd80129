//! SQL texts: filling in templates, splitting scripts, and the form in which
//! definitions are compared.
use vstd::prelude::*;

use crate::text::{ascii_lower, chars, found_at, lower_char, lowered, occurs_at, text_of};

verus! {

// ----------------------------------------------------------------- searching
/// Where `mark` first occurs in `s` from position `from` on.
pub open spec fn position(s: Seq<char>, mark: Seq<char>, from: int) -> Option<int>
    decreases s.len() - from + 1,
{
    if from + mark.len() > s.len() {
        None
    } else if occurs_at(s, mark, from) {
        Some(from)
    } else {
        position(s, mark, from + 1)
    }
}

proof fn lemma_position(s: Seq<char>, mark: Seq<char>, from: int)
    requires
        from >= 0,
    ensures
        position(s, mark, from) matches Some(i) ==> from <= i && i + mark.len() <= s.len(),
    decreases s.len() - from + 1,
{
    if from + mark.len() <= s.len() && !occurs_at(s, mark, from) {
        lemma_position(s, mark, from + 1);
    }
}

/// A mark that occurs is found, and splits a text.
pub proof fn lemma_position_found(s: Seq<char>, mark: Seq<char>, from: int, at: int)
    requires
        mark.len() > 0,
        0 <= from <= at,
        occurs_at(s, mark, at),
    ensures
        position(s, mark, from) matches Some(i) && from <= i <= at,
        pieces_from(s, mark, from).len() >= 2,
    decreases at - from,
{
    if from < at && !occurs_at(s, mark, from) {
        lemma_position_found(s, mark, from + 1, at);
    }
    lemma_position(s, mark, from);
    let i = position(s, mark, from)->0;
    assert(pieces_from(s, mark, i + mark.len()).len() >= 1);
}

fn find_from(s: &Vec<char>, mark: &Vec<char>, from: usize) -> (r: Option<usize>)
    requires
        from <= s.len(),
    ensures
        match r {
            Some(i) => position(s@, mark@, from as int) == Some(i as int) && from <= i && i
                + mark.len() <= s.len(),
            None => position(s@, mark@, from as int) is None,
        },
{
    let mut i: usize = from;
    while i <= s.len()
        invariant
            from <= i <= s.len() + 1,
            position(s@, mark@, from as int) == position(s@, mark@, i as int),
        decreases s.len() + 1 - i,
    {
        if found_at(s, mark, i) {
            return Some(i);
        }
        if i == s.len() {
            assert(position(s@, mark@, i + 1) is None);
            return None;
        }
        if mark.len() > s.len() - i {
            return None;
        }
        i += 1;
    }
    None
}

// ------------------------------------------------------------------- filling
/// `s` from position `from` on, with `with` in place of each `mark`.
pub open spec fn replaced_from(s: Seq<char>, mark: Seq<char>, with: Seq<char>, from: int) -> Seq<
    char,
>
    decreases s.len() - from,
    when 0 <= from <= s.len()
    via replaced_from_ends
{
    if mark.len() == 0 {
        s.skip(from)
    } else {
        match position(s, mark, from) {
            None => s.skip(from),
            Some(i) => s.subrange(from, i) + with + replaced_from(s, mark, with, i + mark.len()),
        }
    }
}

#[via_fn]
proof fn replaced_from_ends(s: Seq<char>, mark: Seq<char>, with: Seq<char>, from: int) {
    lemma_position(s, mark, from);
}

/// `s` with `with` in place of each `mark`.
pub open spec fn replaced(s: Seq<char>, mark: Seq<char>, with: Seq<char>) -> Seq<char> {
    replaced_from(s, mark, with, 0)
}

/// `s` with `with` in place of each `mark`.
pub fn replace_all(s: &str, mark: &str, with: &str) -> (r: String)
    requires
        mark@.len() > 0,
    ensures
        r@ == replaced(s@, mark@, with@),
{
    let v = chars(s);
    let m = chars(mark);
    let mut out = "".to_owned();
    let mut from: usize = 0;
    proof {
        reveal_strlit("");
        assert(out@ + replaced_from(v@, m@, with@, 0) =~= replaced(s@, mark@, with@));
    }
    while from <= v.len()
        invariant
            from <= v.len(),
            m.len() > 0,
            v@ == s@,
            m@ == mark@,
            replaced(s@, mark@, with@) == out@ + replaced_from(v@, m@, with@, from as int),
        decreases v.len() - from,
    {
        let ghost before = out@;
        match find_from(&v, &m, from) {
            None => {
                let rest = text_of(&v, from, v.len());
                out.append(rest.as_str());
                assert(out@ =~= before + v@.skip(from as int));
                return out;
            },
            Some(i) => {
                let part = text_of(&v, from, i);
                out.append(part.as_str());
                out.append(with);
                assert(out@ + replaced_from(v@, m@, with@, i + m.len()) =~= before + (v@.subrange(
                    from as int,
                    i as int,
                ) + with@ + replaced_from(v@, m@, with@, i + m.len())));
                from = i + m.len();
            },
        }
    }
    out
}

// ----------------------------------------------------------------- splitting
/// The parts of `s`, from position `from` on, between the occurrences of `mark`.
pub open spec fn pieces_from(s: Seq<char>, mark: Seq<char>, from: int) -> Seq<Seq<char>>
    decreases s.len() - from,
    when 0 <= from <= s.len()
    via pieces_from_ends
{
    if mark.len() == 0 {
        seq![s.skip(from)]
    } else {
        match position(s, mark, from) {
            None => seq![s.skip(from)],
            Some(i) => seq![s.subrange(from, i)] + pieces_from(s, mark, i + mark.len()),
        }
    }
}

#[via_fn]
proof fn pieces_from_ends(s: Seq<char>, mark: Seq<char>, from: int) {
    lemma_position(s, mark, from);
}

/// The parts of `s` between the occurrences of `mark`.
pub open spec fn pieces(s: Seq<char>, mark: Seq<char>) -> Seq<Seq<char>> {
    pieces_from(s, mark, 0)
}

/// The parts of `s` between the occurrences of `mark`.
pub fn split(s: &str, mark: &str) -> (r: Vec<String>)
    requires
        mark@.len() > 0,
    ensures
        r.deep_view() == pieces(s@, mark@),
{
    let v = chars(s);
    let m = chars(mark);
    let mut out: Vec<String> = Vec::new();
    let mut from: usize = 0;
    assert(out.deep_view() + pieces_from(v@, m@, 0) =~= pieces(s@, mark@));
    while from <= v.len()
        invariant
            from <= v.len(),
            m.len() > 0,
            v@ == s@,
            m@ == mark@,
            pieces(s@, mark@) == out.deep_view() + pieces_from(v@, m@, from as int),
        decreases v.len() - from,
    {
        let ghost before = out.deep_view();
        match find_from(&v, &m, from) {
            None => {
                out.push(text_of(&v, from, v.len()));
                assert(out.deep_view() =~= before + seq![v@.skip(from as int)]);
                return out;
            },
            Some(i) => {
                out.push(text_of(&v, from, i));
                assert(out.deep_view() + pieces_from(v@, m@, i + m.len()) =~= before + (seq![
                    v@.subrange(from as int, i as int),
                ] + pieces_from(v@, m@, i + m.len())));
                from = i + m.len();
            },
        }
    }
    out
}

// --------------------------------------------------------------- normal form
/// How far a definition has been brought to its normal form.
pub struct Normal {
    pub out: Seq<char>,
    /// The quotation mark that is open.
    pub quote: Option<char>,
    /// Whether white space was passed over.
    pub pending: bool,
}

/// Whether a character begins quoted text.
pub open spec fn is_quote(c: char) -> bool {
    c == '\'' || c == '"' || c == '`'
}

/// Whether a character is ASCII white space.
pub open spec fn is_ascii_space(c: char) -> bool {
    c == ' ' || c == '\t' || c == '\n' || c == '\x0c' || c == '\r'
}

/// A text without the spaces at its end.
pub open spec fn without_spaces(s: Seq<char>) -> Seq<char>
    decreases s.len(),
{
    if s.len() > 0 && s.last() == ' ' {
        without_spaces(s.drop_last())
    } else {
        s
    }
}

/// A text without the spaces and semicolons at its end.
pub open spec fn without_ends(s: Seq<char>) -> Seq<char>
    decreases s.len(),
{
    if s.len() > 0 && (s.last() == ' ' || s.last() == ';') {
        without_ends(s.drop_last())
    } else {
        s
    }
}

/// What was passed over: one space, unless nothing stands before it.
pub open spec fn spaced(n: Normal) -> Seq<char> {
    if n.pending && n.out.len() > 0 {
        n.out.push(' ')
    } else {
        n.out
    }
}

/// One character further: quoted text stands as it is, other text in lower case
/// with one space for white space, and none before a semicolon.
pub open spec fn stepped(n: Normal, c: char) -> Normal {
    match n.quote {
        Some(quote) => Normal {
            out: n.out.push(c),
            quote: if c == quote {
                None
            } else {
                n.quote
            },
            ..n
        },
        None => if is_quote(c) {
            Normal { out: spaced(n).push(c), quote: Some(c), pending: false }
        } else if is_ascii_space(c) {
            Normal { pending: true, ..n }
        } else if c == ';' {
            Normal { out: without_spaces(n.out).push(';'), pending: true, ..n }
        } else {
            Normal { out: spaced(n) + lowered(c), pending: false, ..n }
        },
    }
}

/// A definition, character by character.
pub open spec fn scanned(s: Seq<char>) -> Normal
    decreases s.len(),
{
    if s.len() == 0 {
        Normal { out: Seq::empty(), quote: None, pending: false }
    } else {
        stepped(scanned(s.drop_last()), s.last())
    }
}

/// The normal form of a definition.
pub open spec fn normalized(s: Seq<char>) -> Seq<char> {
    without_ends(scanned(s).out)
}

// ---------------------------------------------------------------------- laws
/// Whether a character is neither white space nor a mark that a definition is taken
/// apart by.
pub open spec fn is_plain(c: char) -> bool {
    !is_quote(c) && !is_ascii_space(c) && c != ';'
}

/// Whether the lower case of a character is plain text in lower case. It is for ASCII;
/// for other characters it is up to `char::to_lowercase`.
pub open spec fn settles(c: char) -> bool {
    c <= '\x7f' || forall|j: int|
        0 <= j < lowered(c).len() ==> is_plain(#[trigger] lowered(c)[j]) && lowered(lowered(c)[j])
            == seq![lowered(c)[j]]
}

/// Whether the lower case of every plain character that a text holds outside quotation
/// is plain text in lower case.
pub open spec fn all_settle(s: Seq<char>) -> bool {
    forall|i: int|
        0 <= i < s.len() && scanned(s.take(i)).quote is None && is_plain(s[i]) ==> settles(
            #[trigger] s[i],
        )
}

/// Whether plain text is in lower case.
spec fn is_low(s: Seq<char>) -> bool {
    forall|i: int|
        0 <= i < s.len() ==> is_plain(#[trigger] s[i]) && lowered(s[i]) == seq![s[i]]
}

proof fn lemma_lowered_is_low(c: char)
    requires
        settles(c),
        is_plain(c),
    ensures
        is_low(lowered(c)),
        lowered(c).len() > 0,
{
    if c <= '\x7f' {
        let d = ascii_lower(c);
        assert(lowered(c)[0] == d);
        assert(d <= '\x7f');
        assert(ascii_lower(d) == d);
        assert(lowered(d) =~= seq![d]);
    }
}

proof fn lemma_low_settles(c: char)
    requires
        is_plain(c),
        lowered(c) == seq![c],
    ensures
        settles(c),
{
}

/// The beginning of a text that settles settles.
proof fn lemma_settles_before(s: Seq<char>)
    requires
        s.len() > 0,
        all_settle(s),
    ensures
        all_settle(s.drop_last()),
        scanned(s.drop_last()).quote is None && is_plain(s.last()) ==> settles(s.last()),
{
    let h = s.drop_last();
    assert forall|i: int|
        0 <= i < h.len() && scanned(h.take(i)).quote is None && is_plain(h[i]) implies settles(
        #[trigger] h[i],
    ) by {
        assert(h[i] == s[i]);
        assert(h.take(i) =~= s.take(i));
    }
    assert(s.take(s.len() - 1) =~= h);
    if scanned(h).quote is None && is_plain(s.last()) {
        assert(settles(s[s.len() - 1]));
    }
}

/// A text that settles still does with one more character that does.
proof fn lemma_settles_on(s: Seq<char>, c: char)
    requires
        all_settle(s),
        !is_plain(c) || settles(c) || scanned(s).quote is Some,
    ensures
        all_settle(s.push(c)),
{
    let t = s.push(c);
    assert forall|i: int|
        0 <= i < t.len() && scanned(t.take(i)).quote is None && is_plain(t[i]) implies settles(
        #[trigger] t[i],
    ) by {
        if i < s.len() {
            assert(t[i] == s[i]);
            assert(t.take(i) =~= s.take(i));
        } else {
            assert(t.take(i) =~= s);
        }
    }
}

proof fn lemma_settles_low(s: Seq<char>, ds: Seq<char>)
    requires
        all_settle(s),
        is_low(ds),
    ensures
        all_settle(s + ds),
    decreases ds.len(),
{
    if ds.len() > 0 {
        let h = ds.drop_last();
        assert forall|i: int| 0 <= i < h.len() implies is_plain(#[trigger] h[i]) && lowered(h[i])
            == seq![h[i]] by {
            assert(h[i] == ds[i]);
        }
        lemma_settles_low(s, h);
        assert(is_plain(ds[ds.len() - 1]));
        lemma_low_settles(ds.last());
        lemma_settles_on(s + h, ds.last());
        assert((s + h).push(ds.last()) =~= s + ds);
    } else {
        assert(s + ds =~= s);
    }
}

/// Behind a text that is not in quotation, plain text in lower case stands as it is.
proof fn lemma_low_text(x: Seq<char>, ds: Seq<char>)
    requires
        scanned(x).quote is None,
        is_low(ds),
        ds.len() > 0,
    ensures
        scanned(x + ds) == (Normal { out: spaced(scanned(x)) + ds, quote: None, pending: false }),
    decreases ds.len(),
{
    let head = ds.drop_last();
    let d = ds.last();
    assert((x + ds).drop_last() =~= x + head);
    assert((x + ds).last() == d);
    assert(is_plain(ds[ds.len() - 1]) && lowered(ds[ds.len() - 1]) == seq![d]);
    if head.len() > 0 {
        assert forall|i: int| 0 <= i < head.len() implies is_plain(#[trigger] head[i]) && lowered(
            head[i],
        ) == seq![head[i]] by {
            assert(head[i] == ds[i]);
        }
        lemma_low_text(x, head);
        assert(spaced(scanned(x)) + ds =~= (spaced(scanned(x)) + head) + seq![d]);
    } else {
        assert(x + head =~= x);
        assert(ds =~= seq![d]);
    }
}

/// What a scan gives does not end in a space, but in quotation, where no white space is
/// pending.
proof fn lemma_scan_ends(s: Seq<char>)
    requires
        all_settle(s),
    ensures
        scanned(s).quote is None ==> scanned(s).out.len() == 0 || scanned(s).out.last() != ' ',
        scanned(s).quote is Some ==> !scanned(s).pending,
    decreases s.len(),
{
    if s.len() > 0 {
        let h = s.drop_last();
        let c = s.last();
        lemma_settles_before(s);
        lemma_scan_ends(h);
        lemma_scan_pending(h);
        let n = scanned(h);
        if n.quote is None && !is_quote(c) && !is_ascii_space(c) {
            if c == ';' {
                lemma_no_spaces(n.out);
            } else {
                lemma_lowered_is_low(c);
                let ds = lowered(c);
                assert(is_plain(ds[ds.len() - 1]));
            }
        }
    }
}

proof fn lemma_no_spaces(s: Seq<char>)
    requires
        s.len() == 0 || s.last() != ' ',
    ensures
        without_spaces(s) == s,
{
}

/// What a scan gives is scanned as it stands.
proof fn lemma_scan_stands(s: Seq<char>)
    requires
        all_settle(s),
    ensures
        scanned(scanned(s).out).out == scanned(s).out,
        scanned(scanned(s).out).quote == scanned(s).quote,
        scanned(scanned(s).out).pending ==> scanned(s).pending,
        all_settle(scanned(s).out),
    decreases s.len(),
{
    if s.len() > 0 {
        let h = s.drop_last();
        let c = s.last();
        lemma_settles_before(s);
        lemma_scan_stands(h);
        lemma_scan_ends(h);
        let n = scanned(h);
        let q = scanned(n.out);
        let x = spaced(n);
        assert(n.out.push(' ').drop_last() =~= n.out);
        assert(n.out.push(c).drop_last() =~= n.out);
        if n.quote is Some {
            lemma_scan_pending(n.out);
            lemma_settles_on(n.out, c);
        } else {
            lemma_settles_on(n.out, ' ');
            if is_quote(c) {
                assert(x.push(c).drop_last() =~= x);
                assert(scanned(x).quote is None);
                lemma_settles_on(x, c);
            } else if c == ';' {
                lemma_no_spaces(n.out);
                lemma_settles_on(n.out, ';');
            } else if !is_ascii_space(c) {
                lemma_lowered_is_low(c);
                lemma_low_text(x, lowered(c));
                lemma_settles_low(x, lowered(c));
            }
        }
    } else {
        assert(scanned(s).out =~= Seq::<char>::empty());
    }
}

/// In quotation no white space is pending, and a quotation mark is open.
proof fn lemma_scan_pending(s: Seq<char>)
    ensures
        scanned(s).quote is Some ==> !scanned(s).pending && is_quote(scanned(s).quote->0),
    decreases s.len(),
{
    if s.len() > 0 {
        lemma_scan_pending(s.drop_last());
    }
}

/// A text that is scanned as it stands is so without the spaces and semicolons at its
/// end.
proof fn lemma_ends_stand(t: Seq<char>)
    requires
        all_settle(t),
        scanned(t).out == t,
    ensures
        scanned(without_ends(t)).out == without_ends(t),
    decreases t.len(),
{
    if t.len() > 0 && (t.last() == ' ' || t.last() == ';') {
        let h = t.drop_last();
        lemma_settles_before(t);
        lemma_scan_ends(t);
        lemma_scan_ends(h);
        let n = scanned(h);
        if n.quote is Some {
            assert(n.out =~= n.out.push(t.last()).drop_last());
        } else if t.last() == ';' {
            lemma_no_spaces(n.out);
            assert(n.out =~= n.out.push(';').drop_last());
        }
        lemma_ends_stand(h);
    }
}

proof fn lemma_without_ends(s: Seq<char>)
    ensures
        without_ends(without_ends(s)) == without_ends(s),
    decreases s.len(),
{
    if s.len() > 0 && (s.last() == ' ' || s.last() == ';') {
        lemma_without_ends(s.drop_last());
    }
}

/// Bringing a normal form to its normal form changes nothing.
pub proof fn normal_forms_stand(s: Seq<char>)
    requires
        all_settle(s),
    ensures
        normalized(normalized(s)) == normalized(s),
{
    lemma_scan_stands(s);
    lemma_scan_ends(s);
    lemma_ends_stand(scanned(s).out);
    lemma_without_ends(scanned(s).out);
}

/// A text with its ASCII letters in lower case and one space for each run of ASCII white
/// space.
pub open spec fn squeezed(s: Seq<char>) -> Seq<char>
    decreases s.len(),
{
    if s.len() == 0 {
        s
    } else {
        let before = squeezed(s.drop_last());
        if !is_ascii_space(s.last()) {
            before.push(ascii_lower(s.last()))
        } else if before.len() > 0 && before.last() == ' ' {
            before
        } else {
            before.push(' ')
        }
    }
}

/// Whether a text holds no quotation mark.
pub open spec fn unquoted(s: Seq<char>) -> bool {
    forall|i: int| 0 <= i < s.len() ==> !is_quote(#[trigger] s[i])
}

proof fn lemma_lower_twice(c: char)
    ensures
        lowered(ascii_lower(c)) == lowered(c),
        is_quote(ascii_lower(c)) == is_quote(c),
        is_ascii_space(ascii_lower(c)) == is_ascii_space(c),
        (ascii_lower(c) == ';') == (c == ';'),
        (ascii_lower(c) == ' ') == (c == ' '),
{
}

proof fn lemma_squeezed(s: Seq<char>)
    requires
        unquoted(s),
    ensures
        scanned(squeezed(s)) == scanned(s),
        scanned(s).quote is None,
        squeezed(s).len() > 0 && squeezed(s).last() == ' ' ==> scanned(s).pending,
    decreases s.len(),
{
    if s.len() > 0 {
        let h = s.drop_last();
        let c = s.last();
        assert(!is_quote(s[s.len() - 1]));
        assert forall|i: int| 0 <= i < h.len() implies !is_quote(#[trigger] h[i]) by {
            assert(h[i] == s[i]);
        }
        lemma_squeezed(h);
        lemma_lower_twice(c);
        let before = squeezed(h);
        assert(before.push(ascii_lower(c)).drop_last() =~= before);
        assert(before.push(' ').drop_last() =~= before);
    }
}

/// Outside quotation, neither the case of ASCII letters nor how much white space stands
/// between words matters to the normal form.
pub proof fn case_and_white_space_do_not_matter(a: Seq<char>, b: Seq<char>)
    requires
        unquoted(a),
        unquoted(b),
        squeezed(a) == squeezed(b),
    ensures
        normalized(a) == normalized(b),
{
    lemma_squeezed(a);
    lemma_squeezed(b);
}

/// Whether the lower case of a character begins with neither a space nor a semicolon. It
/// does for plain ASCII; for other characters it is up to `char::to_lowercase`.
pub open spec fn begins_a_word(c: char) -> bool {
    lowered(c)[0] != ' ' && lowered(c)[0] != ';'
}

/// Plain ASCII begins a word.
pub proof fn plain_ascii_begins_a_word(c: char)
    requires
        is_plain(c),
        c <= '\x7f',
    ensures
        begins_a_word(c),
{
    lemma_lower_twice(c);
}

proof fn lemma_spaced_on(x: Seq<char>, y: Seq<char>)
    requires
        scanned(x).quote is None,
        !scanned(x).pending,
        scanned(x).out.len() > 0,
        y.len() > 0,
        is_plain(y[0]),
        begins_a_word(y[0]),
    ensures
        ({
            let near = scanned(x + y);
            let far = scanned(x.push(' ') + y);
            let k = scanned(x).out.len() as int;
            &&& near.quote == far.quote && near.pending == far.pending
            &&& near.out.len() > k && near.out[k] != ' ' && near.out[k] != ';'
            &&& far.out == scanned(x).out.push(' ') + near.out.skip(k)
            &&& near.out == scanned(x).out + near.out.skip(k)
        }),
    decreases y.len(),
{
    let o = scanned(x).out;
    let k = o.len() as int;
    let h = y.drop_last();
    let c = y.last();
    let near = scanned(x + y);
    let far = scanned(x.push(' ') + y);
    assert((x + y).drop_last() =~= x + h);
    assert((x.push(' ') + y).drop_last() =~= x.push(' ') + h);
    assert((x + y).last() == c && (x.push(' ') + y).last() == c);
    if h.len() == 0 {
        assert(x + h =~= x);
        assert(x.push(' ') + h =~= x.push(' '));
        assert(x.push(' ').drop_last() =~= x);
        assert(near.out.skip(k) =~= lowered(c));
        assert(far.out =~= o.push(' ') + near.out.skip(k));
        assert(near.out =~= o + near.out.skip(k));
    } else {
        assert(h[0] == y[0]);
        lemma_spaced_on(x, h);
        let n = scanned(x + h);
        let f = scanned(x.push(' ') + h);
        let rest = n.out.skip(k);
        if n.quote is None && c == ';' {
            lemma_strip_rest(o, rest);
            lemma_strip_rest(o.push(' '), rest);
            assert(near.out.skip(k) =~= without_spaces(rest).push(';'));
        } else {
            let more = near.out.skip(n.out.len() as int);
            assert(near.out =~= n.out + more);
            assert(far.out =~= f.out + more);
            assert(near.out.skip(k) =~= rest + more);
        }
        assert(far.out =~= o.push(' ') + near.out.skip(k));
        assert(near.out =~= o + near.out.skip(k));
    }
}

/// Spaces are taken off the end of a text that does not begin with one, whatever
/// stands before it.
proof fn lemma_strip_rest(before: Seq<char>, rest: Seq<char>)
    requires
        rest.len() > 0,
        rest[0] != ' ',
    ensures
        without_spaces(before + rest) == before + without_spaces(rest),
        without_spaces(rest).len() > 0,
        without_spaces(rest)[0] == rest[0],
    decreases rest.len(),
{
    assert((before + rest).last() == rest.last());
    if rest.last() == ' ' {
        assert((before + rest).drop_last() =~= before + rest.drop_last());
        lemma_strip_rest(before, rest.drop_last());
    }
}

proof fn lemma_strip_ends(before: Seq<char>, rest: Seq<char>)
    requires
        rest.len() > 0,
        rest[0] != ' ',
        rest[0] != ';',
    ensures
        without_ends(before + rest) == before + without_ends(rest),
    decreases rest.len(),
{
    assert((before + rest).last() == rest.last());
    if rest.last() == ' ' || rest.last() == ';' {
        assert((before + rest).drop_last() =~= before + rest.drop_last());
        lemma_strip_ends(before, rest.drop_last());
    }
}

/// White space between two words matters: a text without it has another normal form.
pub proof fn white_space_between_words_matters(x: Seq<char>, y: Seq<char>)
    requires
        scanned(x).quote is None,
        x.len() > 0,
        is_plain(x.last()),
        y.len() > 0,
        is_plain(y[0]),
        begins_a_word(y[0]),
    ensures
        normalized(x.push(' ') + y) != normalized(x + y),
{
    lemma_scan_pending(x.drop_last());
    lemma_spaced_on(x, y);
    let o = scanned(x).out;
    let near = scanned(x + y).out;
    let rest = near.skip(o.len() as int);
    assert(rest[0] == near[o.len() as int]);
    lemma_strip_ends(o, rest);
    lemma_strip_ends(o.push(' '), rest);
    assert(normalized(x.push(' ') + y).len() == normalized(x + y).len() + 1);
}

fn trim_spaces(out: &mut Vec<char>)
    ensures
        final(out)@ == without_spaces(old(out)@),
{
    while out.len() > 0 && out[out.len() - 1] == ' '
        invariant
            without_spaces(out@) == without_spaces(old(out)@),
        ensures
            without_spaces(out@) == without_spaces(old(out)@),
            out.len() == 0 || out@.last() != ' ',
        decreases out.len(),
    {
        let ghost before = out@;
        out.pop();
        assert(out@ =~= before.drop_last());
    }
}

/// The normal form of a definition: quoted text as it is, other text in lower
/// case with one space for white space.
pub fn normalize_schema_sql(sql: &str) -> (r: String)
    ensures
        r@ == normalized(sql@),
{
    let s = chars(sql);
    let mut out: Vec<char> = Vec::new();
    let mut quote: Option<char> = None;
    let mut pending = false;
    let mut i: usize = 0;
    proof {
        assert(s@.take(0) =~= Seq::<char>::empty());
        assert(out@ =~= Seq::empty());
    }
    while i < s.len()
        invariant
            i <= s.len(),
            scanned(s@.take(i as int)) == (Normal { out: out@, quote, pending }),
        decreases s.len() - i,
    {
        let c: char = s[i];
        let ghost before = Normal { out: out@, quote, pending };
        proof {
            assert(s@.take(i + 1).drop_last() =~= s@.take(i as int));
            assert(s@.take(i + 1).last() == c);
        }
        if let Some(open) = quote {
            out.push(c);
            if c == open {
                quote = None;
            }
        } else if c == '\'' || c == '"' || c == '`' {
            if pending && out.len() > 0 {
                out.push(' ');
            }
            pending = false;
            quote = Some(c);
            out.push(c);
        } else if c == ' ' || c == '\t' || c == '\n' || c == '\x0c' || c == '\r' {
            pending = true;
        } else if c == ';' {
            trim_spaces(&mut out);
            out.push(';');
            pending = true;
        } else {
            if pending && out.len() > 0 {
                out.push(' ');
            }
            pending = false;
            let ghost base = out@;
            let low = lower_char(c);
            assert(low@ == lowered(c));
            let low = chars(low.as_str());
            push_all(&mut out, &low);
        }
        i += 1;
    }
    assert(s@.take(i as int) =~= s@);
    while out.len() > 0 && (out[out.len() - 1] == ' ' || out[out.len() - 1] == ';')
        invariant
            without_ends(out@) == normalized(sql@),
        ensures
            without_ends(out@) == normalized(sql@),
            out.len() == 0 || (out@.last() != ' ' && out@.last() != ';'),
        decreases out.len(),
    {
        let ghost before = out@;
        out.pop();
        assert(out@ =~= before.drop_last());
    }
    assert(out@.subrange(0, out.len() as int) =~= out@);
    text_of(&out, 0, out.len())
}

fn push_all(out: &mut Vec<char>, more: &Vec<char>)
    ensures
        final(out)@ == old(out)@ + more@,
{
    let mut i: usize = 0;
    assert(out@ =~= old(out)@ + more@.take(0));
    while i < more.len()
        invariant
            i <= more.len(),
            out@ == old(out)@ + more@.take(i as int),
        decreases more.len() - i,
    {
        out.push(more[i]);
        assert(out@ =~= old(out)@ + more@.take(i + 1));
        i += 1;
    }
    assert(more@.take(i as int) =~= more@);
}

} // verus!
