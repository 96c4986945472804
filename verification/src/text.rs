//! Text as sequences of characters: conversions, slices and HTML escaping.

use vstd::prelude::*;
use vstd::std_specs::iter::IteratorSpec;

verus! {

/// `String::push` appends one character at the end of the string.
pub assume_specification[ String::push ](s: &mut String, ch: char)
    ensures
        final(s)@ == old(s)@.push(ch),
;

/// The characters of `s`, in order.
pub fn chars_of(s: &str) -> (r: Vec<char>)
    ensures
        r@ == s@,
{
    let mut r: Vec<char> = Vec::new();
    for c in it: s.chars()
        invariant
            r@.len() == it.index(),
            it.seq() == s@,
            forall|j: int| 0 <= j < r@.len() ==> r@[j] == it.seq()[j],
    {
        r.push(c);
    }
    assert(r@ =~= s@);
    r
}

/// The string made of the characters of `v`, in order.
pub fn string_of(v: &Vec<char>) -> (s: String)
    ensures
        s@ == v@,
{
    let mut s = String::new();
    let mut i: usize = 0;
    while i < v.len()
        invariant
            i <= v.len(),
            s@ == v@.take(i as int),
        decreases v.len() - i,
    {
        s.push(v[i]);
        i += 1;
        assert(s@ =~= v@.take(i as int));
    }
    assert(v@.take(v.len() as int) =~= v@);
    s
}

/// A copy of `v`.
pub fn copy_chars(v: &Vec<char>) -> (r: Vec<char>)
    ensures
        r@ == v@,
{
    let mut r: Vec<char> = Vec::new();
    let mut i: usize = 0;
    while i < v.len()
        invariant
            i <= v.len(),
            r@ == v@.subrange(0, i as int),
        decreases v.len() - i,
    {
        r.push(v[i]);
        i += 1;
        assert(r@ =~= v@.subrange(0, i as int));
    }
    assert(v@.subrange(0, v.len() as int) =~= v@);
    r
}

/// The characters of `v` from index `from` up to, not including, index `to`.
pub fn slice_of(v: &Vec<char>, from: usize, to: usize) -> (r: Vec<char>)
    requires
        from <= to <= v.len(),
    ensures
        r@ == v@.subrange(from as int, to as int),
{
    let mut r: Vec<char> = Vec::new();
    let mut i: usize = from;
    while i < to
        invariant
            from <= i <= to <= v.len(),
            r@ == v@.subrange(from as int, i as int),
        decreases to - i,
    {
        r.push(v[i]);
        i += 1;
        assert(r@ =~= v@.subrange(from as int, i as int));
    }
    r
}

/// Appends the characters of `v` to `out`.
pub fn append(out: &mut Vec<char>, v: &Vec<char>)
    ensures
        final(out)@ == old(out)@ + v@,
{
    let mut i: usize = 0;
    while i < v.len()
        invariant
            i <= v.len(),
            out@ == old(out)@ + v@.take(i as int),
        decreases v.len() - i,
    {
        out.push(v[i]);
        i += 1;
        assert(out@ =~= old(out)@ + v@.take(i as int));
    }
    assert(v@.take(v.len() as int) =~= v@);
}

/// Appends the characters of `s` to `out`.
pub fn append_str(out: &mut Vec<char>, s: &str)
    ensures
        final(out)@ == old(out)@ + s@,
{
    let v = chars_of(s);
    append(out, &v);
}

/// What `htmlentity::entity::encode` returns for the text made of the one
/// character `c` above U+0080: its named entity where the crate's table has one,
/// a hexadecimal reference otherwise.
pub uninterp spec fn entity_of(c: char) -> Seq<char>;

/// What a character up to U+0080 becomes in escaped text: each of `< > & " '`
/// its named entity, any other character itself.
pub open spec fn escaped_ascii(c: char) -> Seq<char> {
    if c == '<' {
        "&lt;"@
    } else if c == '>' {
        "&gt;"@
    } else if c == '&' {
        "&amp;"@
    } else if c == '"' {
        "&quot;"@
    } else if c == '\'' {
        "&apos;"@
    } else {
        seq![c]
    }
}

/// Text made safe for an HTML body, character by character.
pub open spec fn escaped(text: Seq<char>) -> Seq<char>
    decreases text.len(),
{
    if text.len() == 0 {
        Seq::empty()
    } else if text.last() as u32 > 0x80 {
        escaped(text.drop_last()) + entity_of(text.last())
    } else {
        escaped(text.drop_last()) + escaped_ascii(text.last())
    }
}

/// Calls `htmlentity::entity::encode` with the character set
/// `SpecialCharsAndNoASCII` and the format `NamedOrHex`. That function maps the
/// text character by character: one above U+0080 becomes an entity reference,
/// each of `< > & " '` its named entity, and any other character stays as it is.
#[verifier::external_body]
pub(crate) fn escape(text: &Vec<char>) -> (out: Vec<char>)
    ensures
        text@.len() == 1 && text@[0] as u32 > 0x80 ==> out@ == entity_of(text@[0]),
        out@ == escaped(text@),
{
    let s: String = text.iter().collect();
    htmlentity::entity::encode(
        &s,
        htmlentity::entity::EntitySet::SpecialCharsAndNoASCII,
        htmlentity::entity::EncodeType::NamedOrHex,
    )
}

/// The state of the split of a text into lines.
#[verifier::ext_equal]
pub ghost struct LineState {
    /// The lines completed so far.
    pub lines: Seq<Seq<char>>,
    /// The characters of the line being read.
    pub cur: Seq<char>,
}

/// `s` without a carriage return at its end.
pub open spec fn without_cr(s: Seq<char>) -> Seq<char> {
    if s.len() > 0 && s.last() == '\r' {
        s.drop_last()
    } else {
        s
    }
}

/// The state of the split after the first `n` characters of `text`. A line
/// feed ends the line, together with a carriage return just before it.
pub open spec fn lines_run(text: Seq<char>, n: nat) -> LineState
    decreases n,
{
    if n == 0 || n > text.len() {
        LineState { lines: Seq::empty(), cur: Seq::empty() }
    } else {
        let st = lines_run(text, (n - 1) as nat);
        if text[n - 1] == '\n' {
            LineState { lines: st.lines.push(without_cr(st.cur)), cur: Seq::empty() }
        } else {
            LineState { cur: st.cur.push(text[n - 1]), ..st }
        }
    }
}

/// The lines of `text`, without their line endings. The last line needs no
/// line ending, and a text that ends with one has no empty line after it.
pub open spec fn lines_of(text: Seq<char>) -> Seq<Seq<char>> {
    let st = lines_run(text, text.len());
    if st.cur.len() > 0 {
        st.lines.push(st.cur)
    } else {
        st.lines
    }
}

/// The character sequences that the vectors of `lines` hold.
pub open spec fn line_seqs(lines: Seq<Vec<char>>) -> Seq<Seq<char>> {
    Seq::new(lines.len(), |i: int| lines[i]@)
}

/// Splits `text` into its lines.
pub fn split_lines(text: &Vec<char>) -> (lines: Vec<Vec<char>>)
    ensures
        line_seqs(lines@) == lines_of(text@),
{
    let mut lines: Vec<Vec<char>> = Vec::new();
    let mut cur: Vec<char> = Vec::new();
    let mut i: usize = 0;
    assert(line_seqs(lines@) =~= Seq::empty());
    while i < text.len()
        invariant
            i <= text.len(),
            lines_run(text@, i as nat) == (LineState { lines: line_seqs(lines@), cur: cur@ }),
        decreases text.len() - i,
    {
        let c = text[i];
        if c == '\n' {
            let n = cur.len();
            if n > 0 && cur[n - 1] == '\r' {
                cur.pop();
            }
            let ghost before = line_seqs(lines@);
            lines.push(cur);
            assert(line_seqs(lines@) =~= before.push(cur@));
            cur = Vec::new();
        } else {
            cur.push(c);
        }
        i += 1;
    }
    if cur.len() > 0 {
        let ghost before = line_seqs(lines@);
        lines.push(cur);
        assert(line_seqs(lines@) =~= before.push(cur@));
    }
    lines
}

} // verus!
