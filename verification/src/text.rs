//! Text handling: cutting source text into statements and statements into tokens.
//!
//! Source text is a run of statements separated by `;`.  A statement has its
//! carriage-return/line-feed pairs removed and the blanks around it trimmed;
//! a statement that is then empty is dropped.  A statement is cut into
//! tokens at every single space, so that two spaces in a row enclose an
//! empty token.
use vstd::prelude::*;
use vstd::string::*;
use vstd::utf8::encode_utf8_decode_utf8;

verus! {

/// The pieces of `s` between the occurrences of `sep`.  There is always one
/// piece more than there are separators: the empty text has one empty
/// piece, and a separator at either end has an empty piece beside it.
pub open spec fn split_on(s: Seq<char>, sep: char) -> Seq<Seq<char>>
    decreases s.len(),
{
    if s.len() == 0 {
        seq![Seq::<char>::empty()]
    } else {
        let before = split_on(s.drop_last(), sep);
        if s.last() == sep {
            before.push(Seq::<char>::empty())
        } else {
            before.drop_last().push(before.last().push(s.last()))
        }
    }
}

/// `s` with every carriage return that a line feed follows removed
/// together with that line feed.
pub open spec fn without_crlf(s: Seq<char>) -> Seq<char>
    decreases s.len(),
{
    if s.len() == 0 {
        s
    } else if s.len() >= 2 && s[0] == '\r' && s[1] == '\n' {
        without_crlf(s.skip(2))
    } else {
        seq![s[0]] + without_crlf(s.skip(1))
    }
}

/// `c` is a blank: one of the twenty-five characters that Unicode classes
/// as `White_Space`.
pub open spec fn is_space(c: char) -> bool {
    let u = c as u32;
    ||| 0x09 <= u <= 0x0D
    ||| u == 0x20
    ||| u == 0x85
    ||| u == 0xA0
    ||| u == 0x1680
    ||| 0x2000 <= u <= 0x200A
    ||| u == 0x2028
    ||| u == 0x2029
    ||| u == 0x202F
    ||| u == 0x205F
    ||| u == 0x3000
}

/// `s` without its leading blanks.
pub open spec fn trim_start(s: Seq<char>) -> Seq<char>
    decreases s.len(),
{
    if s.len() > 0 && is_space(s[0]) {
        trim_start(s.skip(1))
    } else {
        s
    }
}

/// `s` without its trailing blanks.
pub open spec fn trim_end(s: Seq<char>) -> Seq<char>
    decreases s.len(),
{
    if s.len() > 0 && is_space(s.last()) {
        trim_end(s.drop_last())
    } else {
        s
    }
}

/// `s` without the blanks around it.
pub open spec fn trimmed(s: Seq<char>) -> Seq<char> {
    trim_end(trim_start(s))
}

/// A segment of source text made into a statement.
pub open spec fn clean(segment: Seq<char>) -> Seq<char> {
    trimmed(without_crlf(segment))
}

/// The statements that a run of segments holds: each segment cleaned, the
/// empty ones left out.
pub open spec fn kept_statements(segments: Seq<Seq<char>>) -> Seq<Seq<char>> {
    segments.map_values(|segment: Seq<char>| clean(segment)).filter(
        |statement: Seq<char>| statement.len() > 0,
    )
}

/// The statements of a source text: those of its segments between `;`.
pub open spec fn statements(source: Seq<char>) -> Seq<Seq<char>> {
    kept_statements(split_on(source, ';'))
}

/// The tokens of each statement.
pub open spec fn tokens(lines: Seq<Seq<char>>) -> Seq<Seq<Seq<char>>> {
    lines.map_values(|line: Seq<char>| split_on(line, ' '))
}

/// The pieces put together again, with `sep` between each two neighbours.
pub open spec fn joined(pieces: Seq<Seq<char>>, sep: char) -> Seq<char>
    decreases pieces.len(),
{
    if pieces.len() == 0 {
        Seq::<char>::empty()
    } else if pieces.len() == 1 {
        pieces[0]
    } else {
        joined(pieces.drop_last(), sep).push(sep) + pieces.last()
    }
}

/// Splitting cuts at every separator and loses nothing: there is at least
/// one piece, no piece holds the separator, and the pieces joined by the
/// separator are the text again.
pub proof fn lemma_split_is_exact(s: Seq<char>, sep: char)
    ensures
        split_on(s, sep).len() >= 1,
        joined(split_on(s, sep), sep) == s,
        forall|i: int|
            0 <= i < split_on(s, sep).len() ==> !(#[trigger] split_on(s, sep)[i]).contains(sep),
    decreases s.len(),
{
    let pieces = split_on(s, sep);
    if s.len() == 0 {
        assert(joined(pieces, sep) =~= s);
    } else {
        let init = s.drop_last();
        let before = split_on(init, sep);
        lemma_split_is_exact(init, sep);
        if s.last() == sep {
            assert(pieces.drop_last() =~= before);
            assert(joined(pieces, sep) =~= init.push(sep));
            assert(init.push(sep) =~= s);
        } else {
            let grown = before.last().push(s.last());
            if before.len() == 1 {
                assert(pieces =~= seq![grown]);
                assert(joined(pieces, sep) =~= init.push(s.last()));
            } else {
                assert(pieces.drop_last() =~= before.drop_last());
                assert(joined(pieces, sep) =~= (joined(before.drop_last(), sep).push(sep)
                    + before.last()).push(s.last()));
            }
            assert(init.push(s.last()) =~= s);
            assert forall|j: int| 0 <= j < grown.len() implies grown[j] != sep by {
                if j < before.last().len() {
                    assert(before.last().contains(before.last()[j]));
                }
            }
        }
        assert forall|i: int| 0 <= i < pieces.len() implies !(#[trigger] pieces[i]).contains(
            sep,
        ) by {
            if i < pieces.len() - 1 {
                assert(pieces[i] == before[i]);
            }
        }
    }
}

/// Trimming the start drops a run of blanks and stops at the first
/// character that is none.
pub proof fn lemma_trim_start_is_bare(s: Seq<char>)
    ensures
        trim_start(s).len() <= s.len(),
        trim_start(s) == s.skip(s.len() - trim_start(s).len()),
        forall|i: int| 0 <= i < s.len() - trim_start(s).len() ==> is_space(#[trigger] s[i]),
        trim_start(s).len() > 0 ==> !is_space(trim_start(s).first()),
    decreases s.len(),
{
    if s.len() > 0 && is_space(s[0]) {
        let rest = s.skip(1);
        lemma_trim_start_is_bare(rest);
        let cut = rest.len() - trim_start(rest).len();
        assert(rest.skip(cut) =~= s.skip(cut + 1));
        assert forall|i: int| 0 <= i < s.len() - trim_start(s).len() implies is_space(
            #[trigger] s[i],
        ) by {
            if i > 0 {
                assert(s[i] == rest[i - 1]);
            }
        }
    } else {
        assert(s.skip(0) =~= s);
    }
}

/// Trimming the end drops a run of blanks and stops at the last character
/// that is none.
pub proof fn lemma_trim_end_is_bare(s: Seq<char>)
    ensures
        trim_end(s).len() <= s.len(),
        trim_end(s) == s.take(trim_end(s).len() as int),
        forall|i: int| trim_end(s).len() <= i < s.len() ==> is_space(#[trigger] s[i]),
        trim_end(s).len() > 0 ==> !is_space(trim_end(s).last()),
    decreases s.len(),
{
    if s.len() > 0 && is_space(s.last()) {
        let rest = s.drop_last();
        lemma_trim_end_is_bare(rest);
        let kept = trim_end(rest).len() as int;
        assert(rest.take(kept) =~= s.take(kept));
        assert forall|i: int| trim_end(s).len() <= i < s.len() implies is_space(
            #[trigger] s[i],
        ) by {
            if i < s.len() - 1 {
                assert(s[i] == rest[i]);
            }
        }
    } else {
        assert(s.take(s.len() as int) =~= s);
    }
}

/// Trimming takes blanks from both ends and nothing else: what is left is
/// one stretch of the text, everything before and after it is blank, and
/// unless it is empty it neither begins nor ends with a blank.
pub proof fn lemma_trimmed_is_bare(s: Seq<char>)
    ensures
        exists|lo: int, hi: int|
            {
                &&& 0 <= lo <= hi <= s.len()
                &&& trimmed(s) == #[trigger] s.subrange(lo, hi)
                &&& forall|i: int| 0 <= i < lo ==> is_space(#[trigger] s[i])
                &&& forall|i: int| hi <= i < s.len() ==> is_space(#[trigger] s[i])
            },
        trimmed(s).len() > 0 ==> !is_space(trimmed(s).first()) && !is_space(trimmed(s).last()),
{
    let front = trim_start(s);
    lemma_trim_start_is_bare(s);
    lemma_trim_end_is_bare(front);
    let lo = s.len() - front.len();
    let hi = lo + trimmed(s).len();
    assert(front.take(trimmed(s).len() as int) =~= s.subrange(lo, hi));
    assert forall|i: int| hi <= i < s.len() implies is_space(#[trigger] s[i]) by {
        assert(s[i] == front[i - lo]);
    }
    if trimmed(s).len() > 0 {
        assert(trimmed(s).first() == front.first());
    }
}

/// The characters of `s`, in order.
pub fn chars_of(s: &str) -> (v: Vec<char>)
    ensures
        v@ == s@,
{
    let mut v: Vec<char> = Vec::new();
    for c in it: s.chars()
        invariant
            it.seq() == s@,
            v@ == s@.take(it.index() as int),
    {
        v.push(c);
    }
    v
}

/// Whether `a` and `b` are the same text.
pub fn same_text(a: &str, b: &str) -> (r: bool)
    ensures
        r == (a@ == b@),
{
    let x: &[u8] = a.as_bytes();
    let y: &[u8] = b.as_bytes();
    let n: usize = x.len();
    if n != y.len() {
        return false;
    }
    let mut i: usize = 0;
    while i < n
        invariant
            i <= n,
            n == x@.len(),
            n == y@.len(),
            x@ == a.spec_bytes(),
            y@ == b.spec_bytes(),
            forall|j: int| 0 <= j < i ==> x@[j] == y@[j],
        decreases n - i,
    {
        if x[i] != y[i] {
            return false;
        }
        i += 1;
    }
    proof {
        assert(x@ =~= y@);
        encode_utf8_decode_utf8(a@);
        encode_utf8_decode_utf8(b@);
    }
    true
}

/// Whether `c` is a blank.
pub fn space(c: char) -> (r: bool)
    ensures
        r == is_space(c),
{
    let u: u32 = c as u32;
    (0x09 <= u && u <= 0x0D) || u == 0x20 || u == 0x85 || u == 0xA0 || u == 0x1680 || (0x2000 <= u
        && u <= 0x200A) || u == 0x2028 || u == 0x2029 || u == 0x202F || u == 0x205F || u == 0x3000
}

/// Cuts `s` at every occurrence of `sep`.
pub fn split(s: &str, sep: char) -> (pieces: Vec<String>)
    ensures
        pieces.deep_view() == split_on(s@, sep),
{
    let chars: Vec<char> = chars_of(s);
    let n: usize = chars.len();
    let mut pieces: Vec<String> = Vec::new();
    let mut start: usize = 0;
    let mut i: usize = 0;
    assert(pieces.deep_view().push(s@.subrange(0, 0)) =~= split_on(s@.take(0), sep)) by {
        assert(s@.take(0).len() == 0);
        assert(pieces.deep_view() =~= Seq::<Seq<char>>::empty());
        assert(s@.subrange(0, 0) =~= Seq::<char>::empty());
        assert(Seq::<Seq<char>>::empty().push(Seq::<char>::empty()) =~= seq![
            Seq::<char>::empty(),
        ]);
    }
    while i < n
        invariant
            start <= i <= n,
            n == s@.len(),
            chars@ == s@,
            pieces.deep_view().push(s@.subrange(start as int, i as int)) == split_on(
                s@.take(i as int),
                sep,
            ),
        decreases n - i,
    {
        let ghost before = split_on(s@.take(i as int), sep);
        let ghost done = pieces.deep_view();
        assert(s@.take(i + 1).drop_last() =~= s@.take(i as int));
        assert(before.drop_last() =~= done);
        if chars[i] == sep {
            let piece: String = s.substring_char(start, i).to_owned();
            pieces.push(piece);
            assert(pieces.deep_view() =~= before);
            start = i + 1;
            assert(s@.subrange(start as int, start as int) =~= Seq::<char>::empty());
        } else {
            assert(before.last().push(s@[i as int]) =~= s@.subrange(start as int, i + 1));
        }
        i += 1;
    }
    let ghost done = pieces.deep_view();
    let last: String = s.substring_char(start, n).to_owned();
    pieces.push(last);
    assert(s@.take(n as int) =~= s@);
    assert(pieces.deep_view() =~= done.push(s@.subrange(start as int, n as int)));
    pieces
}

/// `s` with its carriage-return/line-feed pairs removed.
pub fn strip_crlf(s: &str) -> (out: String)
    ensures
        out@ == without_crlf(s@),
{
    let chars: Vec<char> = chars_of(s);
    let n: usize = chars.len();
    let mut out: String = String::new();
    let mut kept: usize = 0;
    let mut i: usize = 0;
    assert(out@ + s@.subrange(0, 0) + without_crlf(s@.skip(0)) =~= without_crlf(s@)) by {
        assert(s@.skip(0) =~= s@);
    }
    while i < n
        invariant
            kept <= i <= n,
            n == s@.len(),
            chars@ == s@,
            out@ + s@.subrange(kept as int, i as int) + without_crlf(s@.skip(i as int))
                == without_crlf(s@),
        decreases n - i,
    {
        let ghost rest = s@.skip(i as int);
        if i + 1 < n && chars[i] == '\r' && chars[i + 1] == '\n' {
            assert(rest.skip(2) =~= s@.skip(i + 2));
            assert(rest[0] == '\r' && rest[1] == '\n');
            let ghost before = out@;
            let ghost run = s@.subrange(kept as int, i as int);
            out.append(s.substring_char(kept, i));
            i += 2;
            kept = i;
            assert(out@ + s@.subrange(kept as int, i as int) =~= before + run);
        } else {
            assert(rest.skip(1) =~= s@.skip(i + 1));
            assert(s@.subrange(kept as int, i as int) + (seq![rest[0]] + without_crlf(
                rest.skip(1),
            )) =~= s@.subrange(kept as int, i + 1) + without_crlf(rest.skip(1)));
            i += 1;
        }
    }
    assert(s@.skip(n as int) =~= Seq::<char>::empty());
    out.append(s.substring_char(kept, n));
    assert(out@ =~= without_crlf(s@));
    out
}

/// `s` without the blanks around it.
pub fn trim<'a>(s: &'a str) -> (out: &'a str)
    ensures
        out@ == trimmed(s@),
{
    let chars: Vec<char> = chars_of(s);
    let n: usize = chars.len();
    let mut lo: usize = 0;
    assert(s@.skip(0) =~= s@);
    while lo < n && space(chars[lo])
        invariant
            lo <= n,
            n == s@.len(),
            chars@ == s@,
            trim_start(s@) == trim_start(s@.skip(lo as int)),
        decreases n - lo,
    {
        assert(s@.skip(lo as int).skip(1) =~= s@.skip(lo + 1));
        lo += 1;
    }
    assert(trim_start(s@) == s@.skip(lo as int));
    let mut hi: usize = n;
    assert(s@.subrange(lo as int, n as int) =~= s@.skip(lo as int));
    while hi > lo && space(chars[hi - 1])
        invariant
            lo <= hi <= n,
            n == s@.len(),
            chars@ == s@,
            trimmed(s@) == trim_end(s@.subrange(lo as int, hi as int)),
        decreases hi,
    {
        assert(s@.subrange(lo as int, hi as int).drop_last() =~= s@.subrange(lo as int, hi - 1));
        hi -= 1;
    }
    s.substring_char(lo, hi)
}

/// Adding a segment to a run adds its statement, if it has one.
pub proof fn lemma_kept_statements_push(segments: Seq<Seq<char>>, segment: Seq<char>)
    ensures
        kept_statements(segments.push(segment)) == if clean(segment).len() > 0 {
            kept_statements(segments).push(clean(segment))
        } else {
            kept_statements(segments)
        },
{
    reveal(Seq::filter);
    let cleaner = |segment: Seq<char>| clean(segment);
    assert(segments.push(segment).map_values(cleaner).drop_last() =~= segments.map_values(
        cleaner,
    ));
}

/// Cuts source text into its statements.
pub fn split_statements(source: &str) -> (lines: Vec<String>)
    ensures
        lines.deep_view() == statements(source@),
{
    let segments: Vec<String> = split(source, ';');
    let mut lines: Vec<String> = Vec::new();
    let mut k: usize = 0;
    proof {
        reveal(Seq::filter);
        assert(segments.deep_view().take(0) =~= Seq::<Seq<char>>::empty());
        assert(lines.deep_view() =~= kept_statements(segments.deep_view().take(0)));
    }
    while k < segments.len()
        invariant
            k <= segments.len(),
            lines.deep_view() == kept_statements(segments.deep_view().take(k as int)),
        decreases segments.len() - k,
    {
        let stripped: String = strip_crlf(segments[k].as_str());
        let statement: &str = trim(stripped.as_str());
        let ghost before = lines.deep_view();
        proof {
            lemma_kept_statements_push(segments.deep_view().take(k as int), segments[k as int]@);
            assert(segments.deep_view().take(k as int).push(segments[k as int]@)
                =~= segments.deep_view().take(k + 1));
        }
        if !statement.is_empty() {
            lines.push(statement.to_owned());
            assert(lines.deep_view() =~= before.push(statement@));
        }
        k += 1;
    }
    assert(segments.deep_view().take(k as int) =~= segments.deep_view());
    lines
}

/// Cuts each statement into its tokens, at every single space.
pub fn tokenise_lines(lines: &Vec<String>) -> (tokenised: Vec<Vec<String>>)
    ensures
        tokenised.deep_view() == tokens(lines.deep_view()),
{
    let mut tokenised: Vec<Vec<String>> = Vec::new();
    let mut k: usize = 0;
    while k < lines.len()
        invariant
            k <= lines.len(),
            tokenised.deep_view() =~= tokens(lines.deep_view().take(k as int)),
        decreases lines.len() - k,
    {
        let ghost before = tokenised.deep_view();
        let line: Vec<String> = split(lines[k].as_str(), ' ');
        tokenised.push(line);
        assert(tokenised.deep_view() =~= before.push(split_on(lines[k as int]@, ' ')));
        k += 1;
    }
    assert(lines.deep_view().take(k as int) =~= lines.deep_view());
    tokenised
}

} // verus!
