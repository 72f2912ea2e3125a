//! Plain text helpers over `String` and `&str`: equality, joining lines with
//! a newline and splitting text back into lines.

use vstd::prelude::*;

verus! {

/// Whether two strings hold the same characters.
pub fn same_text(a: &str, b: &str) -> (r: bool)
    ensures
        r == (a@ == b@),
{
    let n = a.unicode_len();
    if n != b.unicode_len() {
        return false;
    }
    let mut i: usize = 0;
    while i < n
        invariant
            n == a@.len(),
            n == b@.len(),
            i <= n,
            forall|k: int| 0 <= k < i ==> a@[k] == b@[k],
        decreases n - i,
    {
        if a.get_char(i) != b.get_char(i) {
            return false;
        }
        i = i + 1;
    }
    assert(a@ =~= b@);
    true
}

} // verus!

verus! {

/// Where `x` first occurs in `s`.
pub open spec fn index_of<A>(s: Seq<A>, x: A) -> Option<int>
    decreases s.len(),
{
    if s.len() == 0 {
        None
    } else if s[0] == x {
        Some(0)
    } else {
        match index_of(s.drop_first(), x) {
            Some(i) => Some(i + 1),
            None => None,
        }
    }
}

/// A scan that has passed `i` places without meeting `x` finds `x` at `i`,
/// or nowhere when it has reached the end.
pub proof fn lemma_index_of<A>(s: Seq<A>, x: A, i: int)
    requires
        0 <= i <= s.len(),
        forall|j: int| 0 <= j < i ==> s[j] != x,
    ensures
        i < s.len() && s[i] == x ==> index_of(s, x) == Some(i),
        i == s.len() ==> index_of(s, x) is None,
    decreases i,
{
    if i > 0 {
        let t = s.drop_first();
        assert forall|j: int| 0 <= j < i - 1 implies t[j] != x by {
            assert(t[j] == s[j + 1]);
        }
        lemma_index_of(t, x, i - 1);
        assert(s[0] != x);
    }
}

/// The characters of each string, in order.
pub open spec fn views(v: Seq<String>) -> Seq<Seq<char>> {
    v.map_values(|s: String| s@)
}

/// Lines put together with a newline between each two.
pub open spec fn joined(lines: Seq<Seq<char>>) -> Seq<char>
    decreases lines.len(),
{
    if lines.len() == 0 {
        Seq::empty()
    } else if lines.len() == 1 {
        lines[0]
    } else {
        joined(lines.drop_last()) + seq!['\n'] + lines.last()
    }
}

/// Text cut at every newline: the pieces between newlines, in order, with
/// the newlines themselves left out. Text without a newline is one piece,
/// the empty text included.
pub open spec fn split_lines(t: Seq<char>) -> Seq<Seq<char>>
    decreases t.len(),
{
    if t.len() == 0 {
        seq![Seq::empty()]
    } else {
        let prev = split_lines(t.drop_last());
        if t.last() == '\n' {
            prev.push(Seq::empty())
        } else {
            prev.update(prev.len() - 1, prev.last().push(t.last()))
        }
    }
}

pub proof fn lemma_split_lines_nonempty(t: Seq<char>)
    ensures
        split_lines(t).len() >= 1,
    decreases t.len(),
{
    if t.len() > 0 {
        lemma_split_lines_nonempty(t.drop_last());
    }
}

proof fn lemma_joined_extend_last(s: Seq<Seq<char>>, c: char)
    requires
        s.len() >= 1,
    ensures
        joined(s.update(s.len() - 1, s.last().push(c))) == joined(s).push(c),
{
    let u = s.update(s.len() - 1, s.last().push(c));
    if s.len() >= 2 {
        assert(u.drop_last() =~= s.drop_last());
        assert(joined(u) =~= joined(s).push(c));
    }
}

/// Splitting text at its newlines and joining the pieces again gives the
/// text back.
pub proof fn lemma_join_split(t: Seq<char>)
    ensures
        joined(split_lines(t)) == t,
    decreases t.len(),
{
    if t.len() > 0 {
        let prev = split_lines(t.drop_last());
        lemma_join_split(t.drop_last());
        lemma_split_lines_nonempty(t.drop_last());
        if t.last() == '\n' {
            let s = prev.push(Seq::empty());
            assert(s.drop_last() =~= prev);
            assert(joined(s) =~= t);
        } else {
            lemma_joined_extend_last(prev, t.last());
            assert(t.drop_last().push(t.last()) =~= t);
        }
    }
}

/// The lines joined with a newline between each two.
pub fn join_lines(lines: &[String]) -> (r: String)
    ensures
        r@ == joined(views(lines@)),
{
    let mut r = String::new();
    let mut i: usize = 0;
    while i < lines.len()
        invariant
            i <= lines@.len(),
            r@ == joined(views(lines@).take(i as int)),
        decreases lines@.len() - i,
    {
        let ghost v = views(lines@);
        if i > 0 {
            r.append("\n");
        }
        r.append(lines[i].as_str());
        proof {
            reveal_strlit("\n");
            let t = v.take(i + 1);
            assert(t.drop_last() =~= v.take(i as int));
            assert(r@ =~= joined(t));
        }
        i = i + 1;
    }
    assert(views(lines@).take(lines@.len() as int) =~= views(lines@));
    r
}

/// The text cut at every newline (see `split_lines`).
pub fn split_text(t: &str) -> (r: Vec<String>)
    ensures
        views(r@) == split_lines(t@),
{
    let n = t.unicode_len();
    let mut r: Vec<String> = Vec::new();
    let mut start: usize = 0;
    let mut i: usize = 0;
    proof {
        assert(t@.take(0) =~= Seq::<char>::empty());
        assert(views(r@) =~= Seq::<Seq<char>>::empty());
        assert(t@.subrange(0, 0) =~= Seq::<char>::empty());
    }
    while i < n
        invariant
            n == t@.len(),
            start <= i <= n,
            split_lines(t@.take(i as int)) == views(r@).push(t@.subrange(start as int, i as int)),
        decreases n - i,
    {
        let c = t.get_char(i);
        let ghost prefix = t@.take(i + 1);
        let ghost before = views(r@);
        proof {
            assert(prefix.drop_last() =~= t@.take(i as int));
            assert(prefix.last() == c);
        }
        if c == '\n' {
            let piece = t.substring_char(start, i).to_owned();
            r.push(piece);
            start = i + 1;
            proof {
                assert(views(r@) =~= before.push(piece@));
                assert(t@.subrange(start as int, i + 1) =~= Seq::<char>::empty());
                assert(split_lines(prefix) == split_lines(t@.take(i as int)).push(Seq::empty()));
                assert(split_lines(prefix) =~= views(r@).push(t@.subrange(start as int, i + 1)));
            }
        } else {
            proof {
                let v = before.push(t@.subrange(start as int, i as int));
                assert(t@.subrange(start as int, i as int).push(c) =~= t@.subrange(start as int, i + 1));
                assert(v.update(v.len() - 1, v.last().push(c)) =~= before.push(
                    t@.subrange(start as int, i + 1),
                ));
            }
        }
        i = i + 1;
    }
    let last = t.substring_char(start, n).to_owned();
    let ghost before = views(r@);
    r.push(last);
    proof {
        assert(t@.take(n as int) =~= t@);
        assert(views(r@) =~= before.push(last@));
    }
    r
}

} // verus!
