use vstd::prelude::*;
use vstd::utf8::{decode_utf8, valid_utf8};

verus! {

// ---------------------------------------------------------------------------
// Specifications
// ---------------------------------------------------------------------------

/// The characters with the Unicode `White_Space` property.
pub open spec fn white_space(c: char) -> bool {
    let u = c as u32;
    ||| 0x09 <= u <= 0x0d
    ||| u == 0x20
    ||| u == 0x85
    ||| u == 0xa0
    ||| u == 0x1680
    ||| 0x2000 <= u <= 0x200a
    ||| u == 0x2028
    ||| u == 0x2029
    ||| u == 0x202f
    ||| u == 0x205f
    ||| u == 0x3000
}

/// `s` without its leading white space.
pub open spec fn trim_start_seq(s: Seq<char>) -> Seq<char>
    decreases s.len(),
{
    if s.len() > 0 && white_space(s[0]) {
        trim_start_seq(s.drop_first())
    } else {
        s
    }
}

/// `s` without its trailing white space.
pub open spec fn trim_end_seq(s: Seq<char>) -> Seq<char>
    decreases s.len(),
{
    if s.len() > 0 && white_space(s.last()) {
        trim_end_seq(s.drop_last())
    } else {
        s
    }
}

/// `s` without its leading and trailing white space.
pub open spec fn trim_seq(s: Seq<char>) -> Seq<char> {
    trim_end_seq(trim_start_seq(s))
}

/// The pieces of `s` between occurrences of `sep`, read from left to right:
/// every `sep` closes the current piece and opens an empty one.
pub open spec fn split_seq(s: Seq<char>, sep: char) -> Seq<Seq<char>>
    decreases s.len(),
{
    if s.len() == 0 {
        seq![Seq::<char>::empty()]
    } else {
        let r = split_seq(s.drop_last(), sep);
        if s.last() == sep {
            r.push(Seq::<char>::empty())
        } else {
            r.update(r.len() - 1, r.last().push(s.last()))
        }
    }
}

/// The pieces put back together with `sep` between neighbours.
pub open spec fn join_seq(pieces: Seq<Seq<char>>, sep: char) -> Seq<char>
    decreases pieces.len(),
{
    if pieces.len() == 0 {
        Seq::<char>::empty()
    } else if pieces.len() == 1 {
        pieces[0]
    } else {
        join_seq(pieces.drop_last(), sep).push(sep) + pieces.last()
    }
}

/// The position of the first `c` in `s`, or the length of `s` when it holds none.
pub open spec fn first_at(s: Seq<char>, c: char) -> int
    decreases s.len(),
{
    if s.len() == 0 {
        0
    } else if s[0] == c {
        0
    } else {
        1 + first_at(s.drop_first(), c)
    }
}

/// The text before the first `c`.
pub open spec fn field_head(s: Seq<char>, c: char) -> Seq<char> {
    s.take(first_at(s, c))
}

/// The text after the first `c`.
pub open spec fn field_rest(s: Seq<char>, c: char) -> Seq<char> {
    s.skip(first_at(s, c) + 1)
}

/// At most three fields: the text before the first `c`, the text between the
/// first and the second `c`, and all that follows the second `c`.
pub open spec fn fields3(s: Seq<char>, c: char) -> Seq<Seq<char>> {
    if !s.contains(c) {
        seq![s]
    } else if !field_rest(s, c).contains(c) {
        seq![field_head(s, c), field_rest(s, c)]
    } else {
        seq![field_head(s, c), field_head(field_rest(s, c), c), field_rest(field_rest(s, c), c)]
    }
}

/// The texts of a vector of strings.
pub open spec fn views(v: Seq<String>) -> Seq<Seq<char>> {
    v.map_values(|x: String| x@)
}

/// The decimal digit for `d < 10`.
pub open spec fn digit_char(d: nat) -> char {
    ((d + 48) as u8) as char
}

/// The decimal notation of a natural number, without leading zeros.
pub open spec fn dec_nat(n: nat) -> Seq<char>
    decreases n,
{
    if n < 10 {
        seq![digit_char(n)]
    } else {
        dec_nat(n / 10).push(digit_char(n % 10))
    }
}

/// The decimal notation of an integer, with a `-` before a negative one.
pub open spec fn dec_int(n: int) -> Seq<char> {
    if n < 0 {
        seq!['-'] + dec_nat((-n) as nat)
    } else {
        dec_nat(n as nat)
    }
}

/// What `String::from_utf8_lossy` makes of `bytes`.
pub uninterp spec fn lossy_utf8(bytes: Seq<u8>) -> Seq<char>;

// ---------------------------------------------------------------------------
// Trusted std calls
// ---------------------------------------------------------------------------

/// `String::push`: appends one character to the end of the string.
#[verifier::external_body]
fn push_char(s: &mut String, c: char)
    ensures
        final(s)@ == old(s)@.push(c),
{
    s.push(c);
}

/// `String::from_utf8_lossy`: decodes `bytes` as UTF-8, putting U+FFFD in
/// place of each invalid sequence. Its result is named `lossy_utf8`; the
/// contract adds what the documentation states, that valid UTF-8 comes back
/// unchanged. How invalid sequences are replaced is not stated.
#[verifier::external_body]
pub(crate) fn decode_lossy(bytes: &[u8]) -> (r: String)
    ensures
        r@ == lossy_utf8(bytes@),
        valid_utf8(bytes@) ==> r@ == decode_utf8(bytes@),
{
    String::from_utf8_lossy(bytes).into_owned()
}

// ---------------------------------------------------------------------------
// Lemmas
// ---------------------------------------------------------------------------

/// Splitting always gives at least one piece.
pub proof fn lemma_split_nonempty(s: Seq<char>, sep: char)
    ensures
        split_seq(s, sep).len() >= 1,
    decreases s.len(),
{
    if s.len() > 0 {
        lemma_split_nonempty(s.drop_last(), sep);
    }
}

/// No piece of a split holds the separator.
pub proof fn lemma_split_pieces_free(s: Seq<char>, sep: char)
    ensures
        forall|i: int|
            0 <= i < split_seq(s, sep).len() ==> !(#[trigger] split_seq(s, sep)[i]).contains(sep),
    decreases s.len(),
{
    lemma_split_nonempty(s, sep);
    if s.len() > 0 {
        let r = split_seq(s.drop_last(), sep);
        lemma_split_pieces_free(s.drop_last(), sep);
        lemma_split_nonempty(s.drop_last(), sep);
        if s.last() != sep {
            let p = r.last().push(s.last());
            assert forall|i: int| 0 <= i < split_seq(s, sep).len() implies !(
            #[trigger] split_seq(s, sep)[i]).contains(sep) by {
                if i == r.len() - 1 {
                    assert(split_seq(s, sep)[i] == p);
                    if p.contains(sep) {
                        let k = choose|k: int| 0 <= k < p.len() && p[k] == sep;
                        assert(r.last()[k] == sep);
                        assert(r[r.len() - 1].contains(sep));
                    }
                }
            }
        } else {
            assert forall|i: int| 0 <= i < split_seq(s, sep).len() implies !(
            #[trigger] split_seq(s, sep)[i]).contains(sep) by {
                if i < r.len() {
                    assert(split_seq(s, sep)[i] == r[i]);
                }
            }
        }
    }
}

/// Joining the pieces of a split with the separator gives back the text.
pub proof fn lemma_split_join(s: Seq<char>, sep: char)
    ensures
        join_seq(split_seq(s, sep), sep) == s,
    decreases s.len(),
{
    lemma_split_nonempty(s, sep);
    if s.len() > 0 {
        let t = s.drop_last();
        let r = split_seq(t, sep);
        lemma_split_join(t, sep);
        lemma_split_nonempty(t, sep);
        if s.last() == sep {
            let q = r.push(Seq::<char>::empty());
            assert(q.drop_last() =~= r);
            assert(join_seq(q, sep) =~= join_seq(r, sep).push(sep));
            assert(s =~= t.push(sep));
        } else {
            let q = r.update(r.len() - 1, r.last().push(s.last()));
            if r.len() == 1 {
                assert(s =~= t.push(s.last()));
            } else {
                assert(q.drop_last() =~= r.drop_last());
                assert(join_seq(r, sep) == join_seq(r.drop_last(), sep).push(sep) + r.last());
                assert(join_seq(q, sep) =~= join_seq(r, sep).push(s.last()));
                assert(s =~= t.push(s.last()));
            }
        }
    }
}

/// Text without the separator is a single piece.
pub proof fn lemma_split_free(s: Seq<char>, sep: char)
    requires
        !s.contains(sep),
    ensures
        split_seq(s, sep) == seq![s],
    decreases s.len(),
{
    if s.len() > 0 {
        let t = s.drop_last();
        assert(!t.contains(sep)) by {
            if t.contains(sep) {
                let k = choose|k: int| 0 <= k < t.len() && t[k] == sep;
                assert(s[k] == sep);
            }
        }
        lemma_split_free(t, sep);
        assert(s.last() != sep);
        assert(s =~= t.push(s.last()));
        assert(s.drop_last() == t);
        let r = split_seq(t, sep);
        assert(split_seq(s, sep) == r.update(r.len() - 1, r.last().push(s.last())));
        assert(r.update(r.len() - 1, r.last().push(s.last())) =~= seq![s]);
    } else {
        assert(s =~= Seq::<char>::empty());
    }
}

/// A text holding the separator splits into at least two pieces.
pub proof fn lemma_split_holding(s: Seq<char>, sep: char)
    requires
        s.contains(sep),
    ensures
        split_seq(s, sep).len() >= 2,
{
    lemma_split_nonempty(s, sep);
    lemma_split_join(s, sep);
    lemma_split_pieces_free(s, sep);
    if split_seq(s, sep).len() == 1 {
        assert(split_seq(s, sep)[0] == s);
    }
}



/// Where the text holds `c`, its head, `c` and its rest make up the text.
pub proof fn lemma_field_join(s: Seq<char>, c: char)
    requires
        s.contains(c),
    ensures
        field_head(s, c).push(c) + field_rest(s, c) == s,
        !field_head(s, c).contains(c),
{
    lemma_first_at(s, c);
    let f = first_at(s, c);
    assert(field_head(s, c).push(c) + field_rest(s, c) =~= s);
    if field_head(s, c).contains(c) {
        let k = choose|k: int| 0 <= k < field_head(s, c).len() && field_head(s, c)[k] == c;
        assert(s[k] == c);
    }
}

/// Leading white space goes: what `trim_start_seq` keeps is `s` from the
/// first character that is not white space on.
pub proof fn lemma_trim_start_shape(s: Seq<char>) -> (i: int)
    ensures
        0 <= i <= s.len(),
        trim_start_seq(s) == s.skip(i),
        forall|k: int| 0 <= k < i ==> white_space(#[trigger] s[k]),
        i < s.len() ==> !white_space(s[i]),
    decreases s.len(),
{
    if s.len() > 0 && white_space(s[0]) {
        let t = s.drop_first();
        let j = lemma_trim_start_shape(t);
        assert(t.skip(j) =~= s.skip(j + 1));
        assert forall|k: int| 0 <= k < j + 1 implies white_space(#[trigger] s[k]) by {
            if k > 0 {
                assert(s[k] == t[k - 1]);
            }
        }
        if j + 1 < s.len() {
            assert(s[j + 1] == t[j]);
        }
        j + 1
    } else {
        assert(s.skip(0) =~= s);
        0
    }
}

/// Trailing white space goes: what `trim_end_seq` keeps is `s` up to just
/// after the last character that is not white space.
pub proof fn lemma_trim_end_shape(s: Seq<char>) -> (j: int)
    ensures
        0 <= j <= s.len(),
        trim_end_seq(s) == s.take(j),
        forall|k: int| j <= k < s.len() ==> white_space(#[trigger] s[k]),
        j > 0 ==> !white_space(s[j - 1]),
    decreases s.len(),
{
    if s.len() > 0 && white_space(s.last()) {
        let t = s.drop_last();
        let j = lemma_trim_end_shape(t);
        assert(t.take(j) =~= s.take(j));
        assert forall|k: int| j <= k < s.len() implies white_space(#[trigger] s[k]) by {
            if k < s.len() - 1 {
                assert(s[k] == t[k]);
            }
        }
        if j > 0 {
            assert(s[j - 1] == t[j - 1]);
        }
        j
    } else {
        assert(s.take(s.len() as int) =~= s);
        s.len() as int
    }
}

/// Trailing white space of `a + b`, where `a` does not end in white space,
/// is that of `b`.
pub proof fn lemma_trim_end_concat(a: Seq<char>, b: Seq<char>)
    requires
        a.len() > 0,
        !white_space(a.last()),
    ensures
        trim_end_seq(a + b) == a + trim_end_seq(b),
    decreases b.len(),
{
    if b.len() == 0 {
        assert(a + b =~= a);
        assert(a + trim_end_seq(b) =~= a);
    } else {
        assert((a + b).last() == b.last());
        assert((a + b).drop_last() =~= a + b.drop_last());
        if white_space(b.last()) {
            lemma_trim_end_concat(a, b.drop_last());
        }
    }
}

/// Splitting `a`, a separator, then `b` gives the pieces of `a` followed by
/// the pieces of `b`.
pub proof fn lemma_split_concat(a: Seq<char>, b: Seq<char>, sep: char)
    ensures
        split_seq(a.push(sep) + b, sep) == split_seq(a, sep) + split_seq(b, sep),
    decreases b.len(),
{
    lemma_split_nonempty(a, sep);
    if b.len() == 0 {
        assert(a.push(sep) + b =~= a.push(sep));
        assert(a.push(sep).drop_last() =~= a);
        assert(split_seq(a.push(sep) + b, sep) =~= split_seq(a, sep) + split_seq(b, sep));
    } else {
        let x = a.push(sep) + b;
        let bt = b.drop_last();
        lemma_split_concat(a, bt, sep);
        lemma_split_nonempty(bt, sep);
        assert(x.drop_last() =~= a.push(sep) + bt);
        assert(x.last() == b.last());
        let r = split_seq(a, sep) + split_seq(bt, sep);
        if b.last() == sep {
            assert(split_seq(x, sep) =~= split_seq(a, sep) + split_seq(b, sep));
        } else {
            let q = split_seq(bt, sep);
            assert(r.last() == q.last());
            assert(split_seq(x, sep) =~= split_seq(a, sep) + split_seq(b, sep));
        }
    }
}

/// Where the first `c` stands: nothing before it is `c`, and it is within
/// `s` exactly when `s` holds `c`.
pub proof fn lemma_first_at(s: Seq<char>, c: char)
    ensures
        0 <= first_at(s, c) <= s.len(),
        (first_at(s, c) < s.len()) == s.contains(c),
        first_at(s, c) < s.len() ==> s[first_at(s, c)] == c,
        forall|k: int| 0 <= k < first_at(s, c) ==> s[k] != c,
    decreases s.len(),
{
    if s.len() > 0 && s[0] != c {
        let t = s.drop_first();
        lemma_first_at(t, c);
        assert forall|k: int| 0 <= k < first_at(s, c) implies s[k] != c by {
            if k > 0 {
                assert(s[k] == t[k - 1]);
            }
        }
        if s.contains(c) {
            let k = choose|k: int| 0 <= k < s.len() && s[k] == c;
            assert(t[k - 1] == c);
        }
        if t.contains(c) {
            let k = choose|k: int| 0 <= k < t.len() && t[k] == c;
            assert(s[k + 1] == c);
        }
    } else if s.len() > 0 {
        assert(s.contains(c)) by {
            assert(s[0] == c);
        }
    }
}

/// A position that nothing before is `c`, and that is `c` or the end, is
/// the first `c`.
pub proof fn lemma_first_at_is(s: Seq<char>, c: char, i: int)
    requires
        0 <= i <= s.len(),
        forall|k: int| 0 <= k < i ==> s[k] != c,
        i == s.len() || s[i] == c,
    ensures
        first_at(s, c) == i,
    decreases s.len(),
{
    if s.len() > 0 && i > 0 {
        let t = s.drop_first();
        assert forall|k: int| 0 <= k < i - 1 implies t[k] != c by {
            assert(t[k] == s[k + 1]);
        }
        if i < s.len() {
            assert(t[i - 1] == s[i]);
        }
        lemma_first_at_is(t, c, i - 1);
    }
}

/// In `a`, `c`, `b` with no `c` in `a`: the head is `a` and the rest is `b`.
pub proof fn lemma_fields_of_join(a: Seq<char>, b: Seq<char>, c: char)
    requires
        !a.contains(c),
    ensures
        first_at(a.push(c) + b, c) == a.len(),
        field_head(a.push(c) + b, c) == a,
        field_rest(a.push(c) + b, c) == b,
        (a.push(c) + b).contains(c),
{
    let s = a.push(c) + b;
    assert forall|k: int| 0 <= k < a.len() implies s[k] != c by {
        assert(s[k] == a[k]);
        if a[k] == c {
            assert(a.contains(c));
        }
    }
    assert(s[a.len() as int] == c);
    lemma_first_at_is(s, c, a.len() as int);
    assert(s.take(a.len() as int) =~= a);
    assert(s.skip(a.len() as int + 1) =~= b);
}

// ---------------------------------------------------------------------------
// Executable text functions
// ---------------------------------------------------------------------------

/// Copies the characters of `s` into a vector.
pub fn chars_of(s: &str) -> (r: Vec<char>)
    ensures
        r@ == s@,
{
    let mut r: Vec<char> = Vec::new();
    for c in it: s.chars()
        invariant
            r@ == it.seq().take(it.index() as int),
            it.seq() == s@,
    {
        r.push(c);
    }
    r
}

/// The string made of `cs[from..to]`.
pub fn string_of(cs: &Vec<char>, from: usize, to: usize) -> (r: String)
    requires
        from <= to <= cs.len(),
    ensures
        r@ == cs@.subrange(from as int, to as int),
{
    let mut r = String::new();
    let mut i = from;
    while i < to
        invariant
            from <= i <= to <= cs.len(),
            r@ == cs@.subrange(from as int, i as int),
        decreases to - i,
    {
        push_char(&mut r, cs[i]);
        assert(cs@.subrange(from as int, i + 1) =~= cs@.subrange(from as int, i as int).push(
            cs@[i as int],
        ));
        i = i + 1;
    }
    r
}

/// Whether `c` has the Unicode `White_Space` property.
pub fn is_white_space(c: char) -> (b: bool)
    ensures
        b == white_space(c),
{
    let u = c as u32;
    (0x09 <= u && u <= 0x0d) || u == 0x20 || u == 0x85 || u == 0xa0 || u == 0x1680 || (0x2000
        <= u && u <= 0x200a) || u == 0x2028 || u == 0x2029 || u == 0x202f || u == 0x205f || u
        == 0x3000
}

/// Whether `s` holds the character `c`.
pub fn has_char(s: &str, c: char) -> (b: bool)
    ensures
        b == s@.contains(c),
{
    let cs = chars_of(s);
    let mut i: usize = 0;
    while i < cs.len()
        invariant
            i <= cs.len(),
            cs@ == s@,
            forall|k: int| 0 <= k < i ==> cs@[k] != c,
        decreases cs.len() - i,
    {
        if cs[i] == c {
            assert(s@[i as int] == c);
            return true;
        }
        i = i + 1;
    }
    false
}

/// `s` without leading and trailing white space, as `str::trim` gives it.
pub fn trim(s: &str) -> (r: String)
    ensures
        r@ == trim_seq(s@),
{
    let cs = chars_of(s);
    let n = cs.len();
    let mut i: usize = 0;
    assert(s@.subrange(0, n as int) =~= s@);
    while i < n && is_white_space(cs[i])
        invariant
            i <= n == cs.len(),
            cs@ == s@,
            trim_start_seq(s@) == trim_start_seq(s@.subrange(i as int, n as int)),
        decreases n - i,
    {
        assert(s@.subrange(i as int, n as int).drop_first() =~= s@.subrange(i + 1, n as int));
        i = i + 1;
    }
    assert(trim_start_seq(s@) == s@.subrange(i as int, n as int));
    let ghost t = s@.subrange(i as int, n as int);
    let mut j: usize = n;
    while j > i && is_white_space(cs[j - 1])
        invariant
            i <= j <= n == cs.len(),
            cs@ == s@,
            t == s@.subrange(i as int, n as int),
            trim_end_seq(t) == trim_end_seq(s@.subrange(i as int, j as int)),
        decreases j - i,
    {
        assert(s@.subrange(i as int, j as int).drop_last() =~= s@.subrange(i as int, j - 1));
        j = j - 1;
    }
    string_of(&cs, i, j)
}

/// The pieces of `s` between occurrences of `sep`, as `str::split` gives them.
pub fn split(s: &str, sep: char) -> (r: Vec<String>)
    ensures
        views(r@) == split_seq(s@, sep),
        r.len() >= 1,
{
    let cs = chars_of(s);
    let n = cs.len();
    let mut pieces: Vec<String> = Vec::new();
    let mut start: usize = 0;
    let mut i: usize = 0;
    assert(cs@.take(0) =~= Seq::<char>::empty());
    assert(views(pieces@).push(cs@.subrange(0, 0)) =~= split_seq(cs@.take(0), sep));
    while i < n
        invariant
            start <= i <= n == cs.len(),
            cs@ == s@,
            views(pieces@).push(cs@.subrange(start as int, i as int)) == split_seq(
                cs@.take(i as int),
                sep,
            ),
        decreases n - i,
    {
        let ghost before = views(pieces@);
        let ghost x = cs@.take(i + 1);
        let ghost r = split_seq(cs@.take(i as int), sep);
        assert(x.drop_last() =~= cs@.take(i as int));
        assert(x.last() == cs@[i as int]);
        assert(split_seq(x, sep) == if cs@[i as int] == sep {
            r.push(Seq::<char>::empty())
        } else {
            r.update(r.len() - 1, r.last().push(cs@[i as int]))
        });
        assert(cs@.subrange(start as int, i + 1) =~= cs@.subrange(start as int, i as int).push(
            cs@[i as int],
        ));
        if cs[i] == sep {
            let p = string_of(&cs, start, i);
            pieces.push(p);
            assert(views(pieces@) =~= before.push(cs@.subrange(start as int, i as int)));
            assert(views(pieces@) == r);
            start = i + 1;
            assert(cs@.subrange(start as int, i + 1) =~= Seq::<char>::empty());
            assert(views(pieces@).push(cs@.subrange(start as int, i + 1)) =~= split_seq(
                cs@.take(i + 1),
                sep,
            ));
        } else {
            assert(views(pieces@).push(cs@.subrange(start as int, i + 1)) =~= split_seq(
                cs@.take(i + 1),
                sep,
            ));
        }
        i = i + 1;
    }
    let last = string_of(&cs, start, n);
    let ghost before = views(pieces@);
    pieces.push(last);
    assert(views(pieces@) =~= before.push(cs@.subrange(start as int, n as int)));
    assert(cs@.take(n as int) =~= s@);
    pieces
}

/// The position of the first `c` in `cs`, or its length when it holds none.
pub fn first_index(cs: &Vec<char>, c: char) -> (r: usize)
    ensures
        r == first_at(cs@, c),
{
    let mut i: usize = 0;
    while i < cs.len() && cs[i] != c
        invariant
            i <= cs.len(),
            forall|k: int| 0 <= k < i ==> cs@[k] != c,
        decreases cs.len() - i,
    {
        i = i + 1;
    }
    proof {
        lemma_first_at_is(cs@, c, i as int);
    }
    i
}

/// The text before the first `sep` and the text after it.
pub fn split_first(s: &str, sep: char) -> (r: (String, String))
    ensures
        r.0@ == field_head(s@, sep),
        s@.contains(sep) ==> r.1@ == field_rest(s@, sep),
{
    let cs = chars_of(s);
    let i = first_index(&cs, sep);
    proof {
        lemma_first_at(s@, sep);
    }
    let head = string_of(&cs, 0, i);
    let rest = if i < cs.len() {
        string_of(&cs, i + 1, cs.len())
    } else {
        String::new()
    };
    assert(cs@.subrange(0, i as int) =~= field_head(s@, sep));
    if i < cs.len() {
        assert(cs@.subrange(i + 1, cs.len() as int) =~= field_rest(s@, sep));
    }
    (head, rest)
}

/// At most three fields of `s`, see `fields3`, as `str::splitn(3, sep)`
/// gives them.
pub fn split_fields3(s: &str, sep: char) -> (r: Vec<String>)
    ensures
        views(r@) == fields3(s@, sep),
{
    let mut r: Vec<String> = Vec::new();
    if !has_char(s, sep) {
        r.push(s.to_owned());
        assert(views(r@) =~= fields3(s@, sep));
        return r;
    }
    let (head, rest) = split_first(s, sep);
    r.push(head);
    if !has_char(rest.as_str(), sep) {
        r.push(rest);
    } else {
        let (second, tail) = split_first(rest.as_str(), sep);
        r.push(second);
        r.push(tail);
    }
    assert(views(r@) =~= fields3(s@, sep));
    r
}

/// Appends the decimal notation of `m` to `out`.
fn push_decimal(out: &mut String, m: u64)
    ensures
        final(out)@ == old(out)@ + dec_nat(m as nat),
    decreases m,
{
    if m >= 10 {
        push_decimal(out, m / 10);
    }
    let d = (m % 10) as u8;
    push_char(out, (d + 48) as char);
    assert(old(out)@ + dec_nat(m as nat) =~= old(out)@ + (if m >= 10 {
        dec_nat((m / 10) as nat)
    } else {
        Seq::<char>::empty()
    }).push(digit_char((m % 10) as nat)));
}

/// The decimal notation of `n`, as `i32::to_string` gives it.
pub fn decimal(n: i32) -> (r: String)
    ensures
        r@ == dec_int(n as int),
{
    let mut r = String::new();
    let v: i64 = n as i64;
    if v < 0 {
        push_char(&mut r, '-');
        push_decimal(&mut r, (-v) as u64);
    } else {
        push_decimal(&mut r, v as u64);
    }
    assert(r@ =~= dec_int(n as int));
    r
}

/// Whether `a` and `b` hold the same text.
pub fn same_text(a: &str, b: &str) -> (r: bool)
    ensures
        r == (a@ == b@),
{
    a.to_owned() == b.to_owned()
}

/// `a` followed by `b`.
pub fn cat(a: &str, b: &str) -> (r: String)
    ensures
        r@ == a@ + b@,
{
    let mut r = a.to_owned();
    r.append(b);
    r
}

} // verus!
