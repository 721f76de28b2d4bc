//! Line-oriented text handling: splitting text into lines, joining lines
//! back, and the exact rendering that the sync engine writes to files.
//!
//! The stored `data` of a config is an ordered list of lines.  It is joined
//! with a single `'\n'` separator before storing and split on the same
//! separator on read; a file on disk holds every line followed by a `'\n'`
//! terminator.  The lemmas here show that each direction of that round trip
//! restores the lines exactly.

use vstd::prelude::*;
use vstd::string::*;

verus! {

/// A single line never contains the separator character.
pub open spec fn line_has_no_newline(l: Seq<char>) -> bool {
    forall|i: int| 0 <= i < l.len() ==> l[i] != '\n'
}

/// Every line of the list is free of the separator character.
pub open spec fn lines_wf(ls: Seq<Seq<char>>) -> bool {
    forall|i: int| 0 <= i < ls.len() ==> line_has_no_newline(#[trigger] ls[i])
}

/// Splitting on `'\n'`.  Always yields at least one piece; the empty text
/// yields one empty line, and a trailing separator yields a final empty
/// line.
pub open spec fn split_lines_spec(s: Seq<char>) -> Seq<Seq<char>>
    decreases s.len(),
{
    if s.len() == 0 {
        seq![Seq::<char>::empty()]
    } else if s[0] == '\n' {
        seq![Seq::<char>::empty()] + split_lines_spec(s.drop_first())
    } else {
        let rest = split_lines_spec(s.drop_first());
        seq![seq![s[0]] + rest[0]] + rest.drop_first()
    }
}

/// Joining with a single `'\n'` between consecutive lines.
pub open spec fn join_lines_spec(ls: Seq<Seq<char>>) -> Seq<char>
    decreases ls.len(),
{
    if ls.len() == 0 {
        Seq::<char>::empty()
    } else if ls.len() == 1 {
        ls[0]
    } else {
        ls[0] + seq!['\n'] + join_lines_spec(ls.drop_first())
    }
}

/// What the sync engine writes for a list of lines: every line followed by
/// a `'\n'` terminator, in order.
pub open spec fn render_spec(ls: Seq<Seq<char>>) -> Seq<char>
    decreases ls.len(),
{
    if ls.len() == 0 {
        Seq::<char>::empty()
    } else {
        ls[0] + seq!['\n'] + render_spec(ls.drop_first())
    }
}

/// File content as read back from disk: one trailing `'\n'`, if present,
/// terminates the last line instead of opening an empty one.
pub open spec fn strip_last_newline_spec(s: Seq<char>) -> Seq<char> {
    if s.len() > 0 && s[s.len() - 1] == '\n' {
        s.drop_last()
    } else {
        s
    }
}

/// The lines of a file's content.
pub open spec fn parse_content_spec(s: Seq<char>) -> Seq<Seq<char>> {
    split_lines_spec(strip_last_newline_spec(s))
}

/// Splitting yields at least one piece.
pub proof fn lemma_split_nonempty(s: Seq<char>)
    ensures
        split_lines_spec(s).len() >= 1,
    decreases s.len(),
{
    if s.len() != 0 {
        lemma_split_nonempty(s.drop_first());
    }
}

/// No piece of a split contains the separator.
pub proof fn lemma_split_wf(s: Seq<char>)
    ensures
        lines_wf(split_lines_spec(s)),
    decreases s.len(),
{
    if s.len() == 0 {
    } else if s[0] == '\n' {
        lemma_split_wf(s.drop_first());
        assert forall|i: int| 0 <= i < split_lines_spec(s).len() implies line_has_no_newline(
            #[trigger] split_lines_spec(s)[i],
        ) by {
            if i > 0 {
                assert(split_lines_spec(s)[i] == split_lines_spec(s.drop_first())[i - 1]);
            }
        }
    } else {
        lemma_split_wf(s.drop_first());
        lemma_split_nonempty(s.drop_first());
        let rest = split_lines_spec(s.drop_first());
        assert forall|i: int| 0 <= i < split_lines_spec(s).len() implies line_has_no_newline(
            #[trigger] split_lines_spec(s)[i],
        ) by {
            if i == 0 {
                assert(line_has_no_newline(rest[0]));
                assert(split_lines_spec(s)[0] == seq![s[0]] + rest[0]);
            } else {
                assert(split_lines_spec(s)[i] == rest[i]);
                assert(line_has_no_newline(rest[i]));
            }
        }
    }
}

/// Joining the pieces of a split restores the text exactly.
pub proof fn lemma_join_of_split(s: Seq<char>)
    ensures
        join_lines_spec(split_lines_spec(s)) == s,
    decreases s.len(),
{
    if s.len() == 0 {
        assert(join_lines_spec(split_lines_spec(s)) =~= s);
    } else if s[0] == '\n' {
        lemma_join_of_split(s.drop_first());
        lemma_split_nonempty(s.drop_first());
        let pieces = split_lines_spec(s);
        assert(pieces.len() >= 2);
        assert(pieces.drop_first() =~= split_lines_spec(s.drop_first()));
        assert(join_lines_spec(pieces) =~= s);
    } else {
        lemma_join_of_split(s.drop_first());
        lemma_split_nonempty(s.drop_first());
        let rest = split_lines_spec(s.drop_first());
        let pieces = split_lines_spec(s);
        if rest.len() == 1 {
            assert(pieces.len() == 1);
            assert(pieces[0] =~= seq![s[0]] + rest[0]);
            assert(join_lines_spec(rest) == rest[0]);
            assert(join_lines_spec(pieces) =~= s);
        } else {
            assert(pieces.len() >= 2);
            assert(pieces[0] == seq![s[0]] + rest[0]);
            assert(pieces.drop_first() =~= rest.drop_first());
            // join(pieces) == pieces[0] + '\n' + join(rest.drop_first())
            // join(rest)   == rest[0] + '\n' + join(rest.drop_first())
            // s.drop_first() == join(rest)
            assert(join_lines_spec(pieces) =~= seq![s[0]] + join_lines_spec(rest));
            assert(seq![s[0]] + s.drop_first() =~= s);
        }
    }
}

/// Splitting a join restores the lines exactly, provided there is at least
/// one line and no line contains the separator.  (The empty list joins to
/// the same text as the list of one empty line, so it is excluded.)
pub proof fn lemma_split_of_join(ls: Seq<Seq<char>>)
    requires
        ls.len() >= 1,
        lines_wf(ls),
    ensures
        split_lines_spec(join_lines_spec(ls)) == ls,
    decreases ls.len(), ls[0].len(),
{
    if ls.len() == 1 {
        lemma_split_no_newline(ls[0]);
    } else if ls[0].len() == 0 {
        // join(ls) starts with '\n'
        let s = join_lines_spec(ls);
        assert(ls[0] =~= Seq::<char>::empty());
        assert(s =~= seq!['\n'] + join_lines_spec(ls.drop_first()));
        assert(s[0] == '\n');
        assert(s.drop_first() =~= join_lines_spec(ls.drop_first()));
        assert(lines_wf(ls.drop_first())) by {
            assert(forall|i: int|
                0 <= i < ls.drop_first().len() ==> #[trigger] ls.drop_first()[i] == ls[i + 1]);
        }
        lemma_split_of_join(ls.drop_first());
        assert(split_lines_spec(s) =~= ls);
    } else {
        // join(ls) starts with the first character of ls[0], not '\n'
        let s = join_lines_spec(ls);
        let tail = ls.update(0, ls[0].drop_first());
        assert(ls[0][0] != '\n');
        assert(s =~= ls[0] + seq!['\n'] + join_lines_spec(ls.drop_first()));
        assert(s[0] == ls[0][0]);
        assert(s.drop_first() =~= join_lines_spec(tail)) by {
            assert(tail.drop_first() =~= ls.drop_first());
            assert(tail[0] == ls[0].drop_first());
            assert(join_lines_spec(tail) == tail[0] + seq!['\n'] + join_lines_spec(
                tail.drop_first(),
            ));
        }
        assert(lines_wf(tail)) by {
            assert(forall|i: int|
                1 <= i < tail.len() ==> #[trigger] tail[i] == ls[i]);
            assert(line_has_no_newline(ls[0]));
            assert(forall|i: int|
                0 <= i < ls[0].drop_first().len() ==> #[trigger] ls[0].drop_first()[i] == ls[0][i
                    + 1]);
        }
        lemma_split_of_join(tail);
        let rest = split_lines_spec(s.drop_first());
        assert(rest == tail);
        assert(rest[0] == ls[0].drop_first());
        assert(split_lines_spec(s)[0] =~= ls[0]);
        assert(split_lines_spec(s) =~= ls);
    }
}

/// A text without the separator splits into exactly one piece: itself.
pub proof fn lemma_split_no_newline(s: Seq<char>)
    requires
        line_has_no_newline(s),
    ensures
        split_lines_spec(s) == seq![s],
    decreases s.len(),
{
    if s.len() == 0 {
        assert(s =~= Seq::<char>::empty());
        assert(split_lines_spec(s) =~= seq![s]);
    } else {
        assert(s[0] != '\n');
        assert(line_has_no_newline(s.drop_first())) by {
            assert(forall|i: int|
                0 <= i < s.drop_first().len() ==> #[trigger] s.drop_first()[i] == s[i + 1]);
        }
        lemma_split_no_newline(s.drop_first());
        let rest = split_lines_spec(s.drop_first());
        assert(rest == seq![s.drop_first()]);
        assert(rest.drop_first() =~= Seq::<Seq<char>>::empty());
        assert(split_lines_spec(s).len() == 1);
        assert(split_lines_spec(s)[0] =~= s);
        assert(split_lines_spec(s) =~= seq![s]);
    }
}

/// The rendered form of a non-empty list of lines is its join followed by
/// one final separator.
pub proof fn lemma_render_is_join_terminated(ls: Seq<Seq<char>>)
    requires
        ls.len() >= 1,
    ensures
        render_spec(ls) == join_lines_spec(ls) + seq!['\n'],
    decreases ls.len(),
{
    if ls.len() == 1 {
        assert(render_spec(ls.drop_first()) =~= Seq::<char>::empty());
        assert(render_spec(ls) =~= join_lines_spec(ls) + seq!['\n']);
    } else {
        lemma_render_is_join_terminated(ls.drop_first());
        assert(render_spec(ls) =~= join_lines_spec(ls) + seq!['\n']);
    }
}

/// Pull after push is the identity on the stored lines: parsing what the
/// sync engine wrote for a config restores that config's lines exactly.
/// (The store never holds an empty line list: every stored config comes
/// from splitting some text, which yields at least one line.)
pub proof fn lemma_parse_of_render(ls: Seq<Seq<char>>)
    requires
        ls.len() >= 1,
        lines_wf(ls),
    ensures
        parse_content_spec(render_spec(ls)) == ls,
{
    lemma_render_is_join_terminated(ls);
    let rendered = render_spec(ls);
    assert(rendered[rendered.len() - 1] == '\n');
    assert(strip_last_newline_spec(rendered) =~= join_lines_spec(ls));
    lemma_split_of_join(ls);
}

/// Splitting at the first separator: the piece before it, then the split
/// of what follows it.
proof fn lemma_split_at_first(s: Seq<char>, k: int)
    requires
        0 <= k < s.len(),
        s[k] == '\n',
        forall|j: int| 0 <= j < k ==> s[j] != '\n',
    ensures
        split_lines_spec(s) == seq![s.take(k)] + split_lines_spec(s.skip(k + 1)),
    decreases k,
{
    if k == 0 {
        assert(s.take(0) =~= Seq::<char>::empty());
        assert(s.skip(1) =~= s.drop_first());
        assert(split_lines_spec(s) =~= seq![s.take(0)] + split_lines_spec(s.skip(1)));
    } else {
        assert(s[0] != '\n');
        let t = s.drop_first();
        assert(t[k - 1] == '\n');
        assert(forall|j: int| 0 <= j < k - 1 ==> #[trigger] t[j] == s[j + 1] && t[j] != '\n');
        lemma_split_at_first(t, k - 1);
        let rest = split_lines_spec(t);
        assert(rest[0] == t.take(k - 1));
        assert(rest.drop_first() =~= split_lines_spec(t.skip(k)));
        assert(t.skip(k) =~= s.skip(k + 1));
        assert(seq![s[0]] + t.take(k - 1) =~= s.take(k));
        assert(split_lines_spec(s) =~= seq![s.take(k)] + split_lines_spec(s.skip(k + 1)));
    }
}

/// Extending a join by one more line appends a separator and that line.
proof fn lemma_join_push(ls: Seq<Seq<char>>, x: Seq<char>)
    ensures
        join_lines_spec(ls.push(x)) == if ls.len() == 0 {
            x
        } else {
            join_lines_spec(ls) + seq!['\n'] + x
        },
    decreases ls.len(),
{
    let p = ls.push(x);
    if ls.len() == 0 {
        assert(p.len() == 1);
        assert(join_lines_spec(p) == p[0]);
        assert(p[0] == x);
    } else if ls.len() == 1 {
        assert(p.len() == 2);
        assert(p.drop_first() =~= seq![x]);
        assert(join_lines_spec(p) == p[0] + seq!['\n'] + join_lines_spec(p.drop_first()));
        assert(join_lines_spec(p.drop_first()) == x);
        assert(p[0] == ls[0]);
        assert(join_lines_spec(ls) == ls[0]);
        assert(join_lines_spec(p) =~= join_lines_spec(ls) + seq!['\n'] + x);
    } else {
        assert(p.drop_first() =~= ls.drop_first().push(x));
        lemma_join_push(ls.drop_first(), x);
        assert(join_lines_spec(p) == p[0] + seq!['\n'] + join_lines_spec(p.drop_first()));
        assert(join_lines_spec(p.drop_first()) == join_lines_spec(ls.drop_first()) + seq!['\n']
            + x);
        assert(p[0] == ls[0]);
        assert(join_lines_spec(ls) == ls[0] + seq!['\n'] + join_lines_spec(ls.drop_first()));
        assert(join_lines_spec(p) =~= join_lines_spec(ls) + seq!['\n'] + x);
    }
}

/// Extending a rendering by one more line appends that line and a
/// terminator.
proof fn lemma_render_push(ls: Seq<Seq<char>>, x: Seq<char>)
    ensures
        render_spec(ls.push(x)) == render_spec(ls) + x + seq!['\n'],
    decreases ls.len(),
{
    let p = ls.push(x);
    if ls.len() == 0 {
        assert(p.drop_first() =~= Seq::<Seq<char>>::empty());
        assert(render_spec(p) =~= render_spec(ls) + x + seq!['\n']);
    } else {
        assert(p.drop_first() =~= ls.drop_first().push(x));
        lemma_render_push(ls.drop_first(), x);
        assert(render_spec(p) == p[0] + seq!['\n'] + render_spec(p.drop_first()));
        assert(render_spec(p.drop_first()) == render_spec(ls.drop_first()) + x + seq!['\n']);
        assert(p[0] == ls[0]);
        assert(render_spec(ls) == ls[0] + seq!['\n'] + render_spec(ls.drop_first()));
        assert(render_spec(p) =~= render_spec(ls) + x + seq!['\n']);
    }
}

/// Character-wise string equality; `==` on `&str` carries no specification.
pub fn str_eq(a: &str, b: &str) -> (r: bool)
    ensures
        r == (a@ == b@),
{
    let n = a.unicode_len();
    let m = b.unicode_len();
    if n != m {
        return false;
    }
    let mut i: usize = 0;
    while i < n
        invariant
            i <= n,
            n == a@.len(),
            n == b@.len(),
            forall|j: int| 0 <= j < i ==> a@[j] == b@[j],
        decreases n - i,
    {
        if a.get_char(i) != b.get_char(i) {
            return false;
        }
        i = i + 1;
    }
    proof {
        assert(a@ =~= b@);
    }
    true
}

/// The index of the first occurrence of `c`, or the length if absent.
pub open spec fn first_index_of(s: Seq<char>, c: char) -> int
    decreases s.len(),
{
    if s.len() == 0 {
        0
    } else if s[0] == c {
        0
    } else {
        1 + first_index_of(s.drop_first(), c)
    }
}

/// `first_index_of` points at the first occurrence, or past the end.
pub proof fn lemma_first_index_of(s: Seq<char>, c: char)
    ensures
        0 <= first_index_of(s, c) <= s.len(),
        first_index_of(s, c) < s.len() ==> s[first_index_of(s, c)] == c,
        forall|j: int| 0 <= j < first_index_of(s, c) ==> s[j] != c,
    decreases s.len(),
{
    if s.len() != 0 && s[0] != c {
        lemma_first_index_of(s.drop_first(), c);
        assert forall|j: int| 0 <= j < first_index_of(s, c) implies s[j] != c by {
            if j > 0 {
                assert(s.drop_first()[j - 1] == s[j]);
                assert(s.drop_first()[j - 1] != c);
            }
        }
    }
}

/// Finds the first occurrence of `c`, returning the length if absent.
pub fn find_char(s: &str, c: char) -> (r: usize)
    ensures
        r == first_index_of(s@, c),
{
    let n = s.unicode_len();
    let mut i: usize = 0;
    while i < n
        invariant
            i <= n,
            n == s@.len(),
            forall|j: int| 0 <= j < i ==> s@[j] != c,
        decreases n - i,
    {
        if s.get_char(i) == c {
            proof {
                lemma_first_index_of(s@, c);
            }
            return i;
        }
        i = i + 1;
    }
    proof {
        lemma_first_index_of(s@, c);
    }
    n
}

/// `suf` is a suffix of `s`.
pub open spec fn has_suffix(s: Seq<char>, suf: Seq<char>) -> bool {
    suf.len() <= s.len() && s.skip(s.len() - suf.len()) == suf
}

/// Whether `suffix` ends `s`, compared character by character.
pub fn str_ends_with(s: &str, suffix: &str) -> (r: bool)
    ensures
        r == has_suffix(s@, suffix@),
{
    let n = s.unicode_len();
    let m = suffix.unicode_len();
    if m > n {
        return false;
    }
    let tail = s.substring_char(n - m, n);
    proof {
        assert(tail@ =~= s@.skip(n - m));
    }
    str_eq(tail, suffix)
}

/// Splits `s` on `'\n'`, exactly as `split_lines_spec` describes.
pub fn split_lines(s: &str) -> (r: Vec<String>)
    ensures
        r.deep_view() == split_lines_spec(s@),
{
    let n = s.unicode_len();
    let mut out: Vec<String> = Vec::new();
    let mut start: usize = 0;
    let mut i: usize = 0;
    proof {
        assert(s@.skip(0) =~= s@);
        assert(out.deep_view() + split_lines_spec(s@) =~= split_lines_spec(s@));
    }
    while i < n
        invariant
            start <= i <= n,
            n == s@.len(),
            forall|j: int| start <= j < i ==> s@[j] != '\n',
            split_lines_spec(s@) == out.deep_view() + split_lines_spec(s@.skip(start as int)),
        decreases n - i,
    {
        if s.get_char(i) == '\n' {
            let piece = s.substring_char(start, i);
            let ghost prev = out.deep_view();
            out.push(piece.to_owned());
            proof {
                let tail = s@.skip(start as int);
                assert(forall|j: int|
                    0 <= j < i - start ==> #[trigger] tail[j] == s@[j + start] && tail[j] != '\n');
                assert(tail[i - start] == '\n');
                lemma_split_at_first(tail, i - start);
                assert(tail.take(i - start) =~= piece@);
                assert(tail.skip(i - start + 1) =~= s@.skip(i + 1));
                assert(out.deep_view() =~= prev + seq![piece@]);
                assert(prev + (seq![piece@] + split_lines_spec(s@.skip(i + 1))) =~= (prev + seq![
                    piece@,
                ]) + split_lines_spec(s@.skip(i + 1)));
            }
            start = i + 1;
        }
        i = i + 1;
    }
    let piece = s.substring_char(start, n);
    let ghost prev = out.deep_view();
    out.push(piece.to_owned());
    proof {
        let tail = s@.skip(start as int);
        assert(forall|j: int|
            0 <= j < tail.len() ==> #[trigger] tail[j] == s@[j + start] && tail[j] != '\n');
        lemma_split_no_newline(tail);
        assert(piece@ =~= tail);
        assert(out.deep_view() =~= prev + seq![piece@]);
        assert(split_lines_spec(s@) =~= out.deep_view());
    }
    out
}

/// Joins lines with a single `'\n'` separator, exactly as
/// `join_lines_spec` describes.
pub fn join_lines(ls: &Vec<String>) -> (r: String)
    ensures
        r@ == join_lines_spec(ls.deep_view()),
{
    let mut out = String::new();
    let mut i: usize = 0;
    proof {
        assert(ls.deep_view().take(0) =~= Seq::<Seq<char>>::empty());
    }
    while i < ls.len()
        invariant
            i <= ls.len(),
            out@ == join_lines_spec(ls.deep_view().take(i as int)),
        decreases ls.len() - i,
    {
        if i > 0 {
            out.append("\n");
        }
        out.append(ls[i].as_str());
        proof {
            reveal_strlit("\n");
            assert("\n"@ =~= seq!['\n']);
            let prefix = ls.deep_view().take(i as int);
            let x = ls.deep_view()[i as int];
            assert(x == ls[i as int]@);
            lemma_join_push(prefix, x);
            assert(ls.deep_view().take(i + 1) =~= prefix.push(x));
            if i > 0 {
                assert(out@ =~= join_lines_spec(prefix) + seq!['\n'] + x);
            } else {
                assert(prefix.len() == 0);
                assert(out@ =~= x);
            }
        }
        i = i + 1;
    }
    proof {
        assert(ls.deep_view().take(ls@.len() as int) =~= ls.deep_view());
    }
    out
}

/// Renders lines as file content: every line followed by a `'\n'`
/// terminator, exactly as `render_spec` describes.
pub fn render_content(ls: &Vec<String>) -> (r: String)
    ensures
        r@ == render_spec(ls.deep_view()),
{
    let mut out = String::new();
    let mut i: usize = 0;
    proof {
        assert(ls.deep_view().take(0) =~= Seq::<Seq<char>>::empty());
    }
    while i < ls.len()
        invariant
            i <= ls.len(),
            out@ == render_spec(ls.deep_view().take(i as int)),
        decreases ls.len() - i,
    {
        out.append(ls[i].as_str());
        out.append("\n");
        proof {
            reveal_strlit("\n");
            assert("\n"@ =~= seq!['\n']);
            let prefix = ls.deep_view().take(i as int);
            let x = ls.deep_view()[i as int];
            assert(x == ls[i as int]@);
            lemma_render_push(prefix, x);
            assert(ls.deep_view().take(i + 1) =~= prefix.push(x));
            assert(out@ =~= render_spec(prefix) + x + seq!['\n']);
        }
        i = i + 1;
    }
    proof {
        assert(ls.deep_view().take(ls@.len() as int) =~= ls.deep_view());
    }
    out
}

/// Splits file content into lines, treating one trailing `'\n'`, if
/// present, as terminating the last line.
pub fn parse_content(s: &str) -> (r: Vec<String>)
    ensures
        r.deep_view() == parse_content_spec(s@),
{
    let n = s.unicode_len();
    if n > 0 && s.get_char(n - 1) == '\n' {
        let body = s.substring_char(0, n - 1);
        proof {
            assert(body@ =~= strip_last_newline_spec(s@));
        }
        split_lines(body)
    } else {
        split_lines(s)
    }
}

} // verus!
