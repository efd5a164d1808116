//! Character-level string utilities: whitespace tokenization, splitting on a
//! separator character, and trimming. Whitespace here means the ASCII blanks
//! that the protocol's text lines can contain.

use vstd::prelude::*;

verus! {

/// ASCII whitespace, as far as the wire protocol is concerned.
pub open spec fn is_space(c: char) -> bool {
    c == ' ' || c == '\t' || c == '\n' || c == '\r'
}

/// The views of a sequence of strings.
pub open spec fn views_of(v: Seq<String>) -> Seq<Seq<char>> {
    v.map_values(|t: String| t@)
}

/// Whitespace tokenization with an accumulator holding the token read so far:
/// a space ends the current token (dropped when empty), any other character
/// extends it.
pub open spec fn tokens_acc(s: Seq<char>, cur: Seq<char>) -> Seq<Seq<char>>
    decreases s.len(),
{
    if s.len() == 0 {
        if cur.len() == 0 {
            Seq::empty()
        } else {
            seq![cur]
        }
    } else if is_space(s[0]) {
        if cur.len() == 0 {
            tokens_acc(s.drop_first(), Seq::empty())
        } else {
            seq![cur] + tokens_acc(s.drop_first(), Seq::empty())
        }
    } else {
        tokens_acc(s.drop_first(), cur.push(s[0]))
    }
}

/// The whitespace-separated tokens of `s`, in order, each non-empty.
pub open spec fn tokens_of(s: Seq<char>) -> Seq<Seq<char>> {
    tokens_acc(s, Seq::empty())
}

/// Splitting on a separator with an accumulator: unlike tokenization, empty
/// pieces are kept, so the result always has one more piece than there are
/// separators.
pub open spec fn split_acc(s: Seq<char>, sep: char, cur: Seq<char>) -> Seq<Seq<char>>
    decreases s.len(),
{
    if s.len() == 0 {
        seq![cur]
    } else if s[0] == sep {
        seq![cur] + split_acc(s.drop_first(), sep, Seq::empty())
    } else {
        split_acc(s.drop_first(), sep, cur.push(s[0]))
    }
}

/// The pieces of `s` between occurrences of `sep`, empties kept.
pub open spec fn split_of(s: Seq<char>, sep: char) -> Seq<Seq<char>> {
    split_acc(s, sep, Seq::empty())
}

/// Splitting text that contains no separator yields just that text.
pub proof fn lemma_split_whole(s: Seq<char>, sep: char)
    requires
        forall|i: int| 0 <= i < s.len() ==> s[i] != sep,
    ensures
        split_of(s, sep) == seq![s],
{
    lemma_split_scan(s, sep, Seq::empty(), s.len() as int);
    assert(Seq::empty() + s =~= s);
}

/// Splitting `a`, a separator, then `rest` yields `a` and then the pieces of
/// `rest`, provided `a` itself is separator-free.
pub proof fn lemma_split_prepend(a: Seq<char>, sep: char, rest: Seq<char>)
    requires
        forall|i: int| 0 <= i < a.len() ==> a[i] != sep,
    ensures
        split_of(a + seq![sep] + rest, sep) == seq![a] + split_of(rest, sep),
{
    let s = a + seq![sep] + rest;
    let k = a.len() as int;
    assert(forall|j: int| 0 <= j < k ==> s[j] == a[j]);
    assert(s[k] == sep);
    lemma_split_scan(s, sep, Seq::empty(), k);
    assert(Seq::empty() + s.take(k) =~= a);
    assert(s.skip(k + 1) =~= rest);
}

proof fn lemma_split_acc_no_sep(s: Seq<char>, sep: char, cur: Seq<char>)
    requires
        !cur.contains(sep),
    ensures
        forall|i: int|
            0 <= i < split_acc(s, sep, cur).len() ==> !(#[trigger] split_acc(s, sep, cur)[i]).contains(
                sep,
            ),
    decreases s.len(),
{
    if s.len() == 0 {
        assert forall|i: int|
            0 <= i < split_acc(s, sep, cur).len() implies !(#[trigger] split_acc(s, sep, cur)[i]).contains(
            sep,
        ) by {
            assert(split_acc(s, sep, cur)[i] == cur);
        }
    } else if s[0] == sep {
        assert(!Seq::<char>::empty().contains(sep));
        lemma_split_acc_no_sep(s.drop_first(), sep, Seq::empty());
        assert forall|i: int|
            0 <= i < split_acc(s, sep, cur).len() implies !(#[trigger] split_acc(s, sep, cur)[i]).contains(
            sep,
        ) by {
            if i > 0 {
                assert(split_acc(s, sep, cur)[i] == split_acc(s.drop_first(), sep, Seq::empty())[
                    i - 1]);
            } else {
                assert(split_acc(s, sep, cur)[0] == cur);
            }
        }
    } else {
        let cur2 = cur.push(s[0]);
        assert(!cur2.contains(sep)) by {
            if cur2.contains(sep) {
                let i = choose|i: int| 0 <= i < cur2.len() && cur2[i] == sep;
                if i < cur.len() {
                    assert(cur[i] == sep);
                }
            }
        }
        lemma_split_acc_no_sep(s.drop_first(), sep, cur2);
        assert forall|i: int|
            0 <= i < split_acc(s, sep, cur).len() implies !(#[trigger] split_acc(s, sep, cur)[i]).contains(
            sep,
        ) by {
            assert(split_acc(s, sep, cur)[i] == split_acc(s.drop_first(), sep, cur2)[i]);
        }
    }
}

/// Every piece of a split is separator-free.
pub proof fn lemma_split_pieces_no_sep(s: Seq<char>, sep: char)
    ensures
        forall|i: int|
            0 <= i < split_of(s, sep).len() ==> !(#[trigger] split_of(s, sep)[i]).contains(sep),
{
    assert(!Seq::<char>::empty().contains(sep));
    lemma_split_acc_no_sep(s, sep, Seq::empty());
}

/// The pieces of `ps` joined with `sep` between them.
pub open spec fn join_with(ps: Seq<Seq<char>>, sep: char) -> Seq<char>
    decreases ps.len(),
{
    if ps.len() == 0 {
        Seq::empty()
    } else if ps.len() == 1 {
        ps[0]
    } else {
        ps[0] + seq![sep] + join_with(ps.drop_first(), sep)
    }
}

/// Joining one more piece appends a separator and the piece.
proof fn lemma_join_push(ps: Seq<Seq<char>>, sep: char, x: Seq<char>)
    ensures
        join_with(ps.push(x), sep) == if ps.len() == 0 {
            x
        } else {
            join_with(ps, sep) + seq![sep] + x
        },
    decreases ps.len(),
{
    let w = ps.push(x);
    if ps.len() == 0 {
        assert(w.len() == 1);
        assert(w[0] == x);
    } else if ps.len() == 1 {
        assert(w.len() == 2);
        assert(w[0] == ps[0]);
        assert(w.drop_first() =~= Seq::<Seq<char>>::empty().push(x));
        lemma_join_push(Seq::empty(), sep, x);
        assert(join_with(w, sep) == ps[0] + seq![sep] + x);
        assert(join_with(ps, sep) == ps[0]);
    } else {
        assert(w.drop_first() =~= ps.drop_first().push(x));
        lemma_join_push(ps.drop_first(), sep, x);
        assert(w[0] == ps[0]);
        assert(join_with(w, sep) == ps[0] + seq![sep] + (join_with(ps.drop_first(), sep)
            + seq![sep] + x));
        assert(ps[0] + seq![sep] + (join_with(ps.drop_first(), sep) + seq![sep] + x) =~= (ps[0]
            + seq![sep] + join_with(ps.drop_first(), sep)) + seq![sep] + x);
    }
}

/// Joining pieces and splitting the result gives the pieces back, provided
/// none of them contains the separator.
pub proof fn lemma_join_split_round_trip(ps: Seq<Seq<char>>, sep: char)
    requires
        ps.len() >= 1,
        forall|i: int| 0 <= i < ps.len() ==> !(#[trigger] ps[i]).contains(sep),
    ensures
        split_of(join_with(ps, sep), sep) == ps,
    decreases ps.len(),
{
    assert forall|i: int, j: int|
        0 <= i < ps.len() && 0 <= j < ps[i].len() implies #[trigger] ps[i][j] != sep by {
        if ps[i][j] == sep {
            assert(ps[i].contains(sep));
        }
    }
    if ps.len() == 1 {
        lemma_split_whole(ps[0], sep);
        assert(seq![ps[0]] =~= ps);
    } else {
        let rest = ps.drop_first();
        assert(forall|i: int| 0 <= i < rest.len() ==> !(#[trigger] rest[i]).contains(sep));
        lemma_join_split_round_trip(rest, sep);
        lemma_split_prepend(ps[0], sep, join_with(rest, sep));
        assert(seq![ps[0]] + rest =~= ps);
    }
}

/// The strings of `v` joined with commas between them, the form a
/// subscription request carries its ticker list in.
pub fn join_comma(v: &Vec<String>) -> (r: String)
    ensures
        r@ == join_with(views_of(v@), ','),
{
    let ghost ps = views_of(v@);
    let mut r = String::new();
    let mut i: usize = 0;
    proof {
        reveal_strlit(",");
        assert((",")@ =~= seq![',']);
        assert(ps.take(0) =~= Seq::<Seq<char>>::empty());
        assert(r@ =~= join_with(ps.take(0), ','));
    }
    while i < v.len()
        invariant
            i <= v@.len(),
            ps == views_of(v@),
            (",")@ == seq![','],
            r@ == join_with(ps.take(i as int), ','),
        decreases v@.len() - i,
    {
        if i > 0 {
            r.append(",");
        }
        r.append(v[i].as_str());
        proof {
            assert(views_of(v@)[i as int] == v@[i as int]@);
            assert(ps.take(i + 1) =~= ps.take(i as int).push(ps[i as int]));
            lemma_join_push(ps.take(i as int), ',', ps[i as int]);
        }
        i = i + 1;
    }
    proof {
        assert(ps.take(ps.len() as int) =~= ps);
    }
    r
}

/// `s` with leading and trailing whitespace removed.
pub open spec fn trim_of(s: Seq<char>) -> Seq<char>
    decreases s.len(),
{
    if s.len() == 0 {
        s
    } else if is_space(s[0]) {
        trim_of(s.drop_first())
    } else if is_space(s.last()) {
        trim_of(s.drop_last())
    } else {
        s
    }
}

/// Exec test for [`is_space`].
pub fn space_char(c: char) -> (r: bool)
    ensures
        r == is_space(c),
{
    c == ' ' || c == '\t' || c == '\n' || c == '\r'
}

/// Scanning a whitespace-free run: reading `k` non-space characters moves them
/// from the string into the accumulator, and a space (or the end) then closes
/// the token.
proof fn lemma_token_scan(t: Seq<char>, cur: Seq<char>, k: int)
    requires
        0 <= k <= t.len(),
        forall|j: int| 0 <= j < k ==> !is_space(t[j]),
        k < t.len() ==> is_space(t[k as int]),
        cur.len() + k >= 1,
    ensures
        tokens_acc(t, cur) == seq![cur + t.take(k)] + tokens_of(t.skip(k)),
    decreases k,
{
    if k == 0 {
        assert(cur + t.take(0) =~= cur);
        if t.len() == 0 {
            assert(tokens_acc(t, cur) == seq![cur]);
            assert(t.skip(0) =~= t);
            assert(seq![cur] + tokens_of(t.skip(0)) =~= seq![cur]);
        } else {
            assert(is_space(t[0]));
            assert(t.skip(0) =~= t);
            assert(tokens_acc(t, cur) == seq![cur] + tokens_acc(t.drop_first(), Seq::empty()));
            assert(tokens_of(t) == tokens_acc(t.drop_first(), Seq::empty()));
        }
    } else {
        assert(!is_space(t[0]));
        let t2 = t.drop_first();
        let cur2 = cur.push(t[0]);
        assert(tokens_acc(t, cur) == tokens_acc(t2, cur2));
        assert(forall|j: int| 0 <= j < k - 1 ==> !is_space(t2[j]));
        assert(k - 1 < t2.len() ==> is_space(t2[k - 1]));
        lemma_token_scan(t2, cur2, k - 1);
        assert(cur2 + t2.take(k - 1) =~= cur + t.take(k));
        assert(t2.skip(k - 1) =~= t.skip(k));
    }
}

/// Scanning a separator-free run, the analogue of [`lemma_token_scan`] for
/// [`split_acc`].
proof fn lemma_split_scan(t: Seq<char>, sep: char, cur: Seq<char>, k: int)
    requires
        0 <= k <= t.len(),
        forall|j: int| 0 <= j < k ==> t[j] != sep,
        k < t.len() ==> t[k as int] == sep,
    ensures
        split_acc(t, sep, cur) == if k == t.len() {
            seq![cur + t]
        } else {
            seq![cur + t.take(k)] + split_of(t.skip(k + 1), sep)
        },
    decreases k,
{
    if k == 0 {
        if t.len() == 0 {
            assert(cur + t =~= cur);
        } else {
            assert(t[0] == sep);
            assert(cur + t.take(0) =~= cur);
            assert(t.drop_first() =~= t.skip(1));
        }
    } else {
        let t2 = t.drop_first();
        let cur2 = cur.push(t[0]);
        assert(forall|j: int| 0 <= j < k - 1 ==> t2[j] != sep);
        assert(k - 1 < t2.len() ==> t2[k - 1] == sep);
        lemma_split_scan(t2, sep, cur2, k - 1);
        if k == t.len() {
            assert(cur2 + t2 =~= cur + t);
        } else {
            assert(cur2 + t2.take(k - 1) =~= cur + t.take(k));
            assert(t2.skip(k) =~= t.skip(k + 1));
        }
    }
}

/// The whitespace-separated tokens of `s`, each as its own `String`.
pub fn split_ws(s: &str) -> (r: Vec<String>)
    ensures
        views_of(r@) == tokens_of(s@),
{
    let n = s.unicode_len();
    let mut r: Vec<String> = Vec::new();
    let mut i: usize = 0;
    proof {
        assert(s@.skip(0) =~= s@);
        assert(views_of(r@) =~= Seq::<Seq<char>>::empty());
        assert(views_of(r@) + tokens_of(s@) =~= tokens_of(s@));
    }
    while i < n
        invariant
            i <= n,
            n == s@.len(),
            views_of(r@) + tokens_of(s@.skip(i as int)) == tokens_of(s@),
        decreases n - i,
    {
        if space_char(s.get_char(i)) {
            proof {
                let t = s@.skip(i as int);
                assert(t.drop_first() =~= s@.skip(i + 1));
            }
            i = i + 1;
        } else {
            let start = i;
            while i < n && !space_char(s.get_char(i))
                invariant
                    start <= i <= n,
                    n == s@.len(),
                    forall|j: int| start <= j < i ==> !is_space(s@[j]),
                decreases n - i,
            {
                i = i + 1;
            }
            assert(i > start);
            let tok = s.substring_char(start, i).to_owned();
            proof {
                let t = s@.skip(start as int);
                let k = i - start;
                assert(forall|j: int| 0 <= j < k ==> t[j] == s@[start + j] && !is_space(t[j]));
                assert(k < t.len() ==> is_space(t[k as int]));
                lemma_token_scan(t, Seq::empty(), k);
                assert(Seq::empty() + t.take(k) =~= s@.subrange(start as int, i as int));
                assert(t.skip(k) =~= s@.skip(i as int));
                assert(views_of(r@.push(tok)) =~= views_of(r@) + seq![s@.subrange(
                    start as int,
                    i as int,
                )]);
                assert(views_of(r@) + seq![s@.subrange(start as int, i as int)] + tokens_of(
                    s@.skip(i as int),
                ) =~= views_of(r@) + (seq![s@.subrange(start as int, i as int)] + tokens_of(
                    s@.skip(i as int),
                )));
            }
            r.push(tok);
        }
    }
    proof {
        assert(s@.skip(n as int) =~= Seq::<char>::empty());
        assert(tokens_of(Seq::<char>::empty()) =~= Seq::<Seq<char>>::empty());
        assert(views_of(r@) + Seq::<Seq<char>>::empty() =~= views_of(r@));
    }
    r
}

/// The pieces of `s` between occurrences of `sep`, each as its own `String`.
pub fn split_char(s: &str, sep: char) -> (r: Vec<String>)
    ensures
        views_of(r@) == split_of(s@, sep),
        r@.len() >= 1,
{
    let n = s.unicode_len();
    let mut r: Vec<String> = Vec::new();
    let mut start: usize = 0;
    let mut i: usize = 0;
    proof {
        assert(s@.skip(0) =~= s@);
        assert(views_of(r@) =~= Seq::<Seq<char>>::empty());
        assert(views_of(r@) + split_of(s@, sep) =~= split_of(s@, sep));
    }
    while i < n
        invariant
            start <= i <= n,
            n == s@.len(),
            forall|j: int| start <= j < i ==> s@[j] != sep,
            views_of(r@) + split_of(s@.skip(start as int), sep) == split_of(s@, sep),
        decreases n - i,
    {
        if s.get_char(i) == sep {
            let piece = s.substring_char(start, i).to_owned();
            proof {
                let t = s@.skip(start as int);
                let k = i - start;
                assert(forall|j: int| 0 <= j < k ==> t[j] == s@[start + j] && t[j] != sep);
                assert(t[k as int] == sep);
                lemma_split_scan(t, sep, Seq::empty(), k);
                assert(Seq::empty() + t.take(k) =~= s@.subrange(start as int, i as int));
                assert(t.skip(k + 1) =~= s@.skip(i + 1));
                assert(views_of(r@.push(piece)) =~= views_of(r@) + seq![s@.subrange(
                    start as int,
                    i as int,
                )]);
                assert(views_of(r@) + seq![s@.subrange(start as int, i as int)] + split_of(
                    s@.skip(i + 1),
                    sep,
                ) =~= views_of(r@) + (seq![s@.subrange(start as int, i as int)] + split_of(
                    s@.skip(i + 1),
                    sep,
                )));
            }
            r.push(piece);
            i = i + 1;
            start = i;
        } else {
            i = i + 1;
        }
    }
    let piece = s.substring_char(start, n).to_owned();
    proof {
        let t = s@.skip(start as int);
        let k = n - start;
        assert(forall|j: int| 0 <= j < k ==> t[j] == s@[start + j] && t[j] != sep);
        lemma_split_scan(t, sep, Seq::empty(), k);
        assert(Seq::empty() + t =~= s@.subrange(start as int, n as int));
        assert(views_of(r@.push(piece)) =~= views_of(r@) + seq![s@.subrange(
            start as int,
            n as int,
        )]);
    }
    r.push(piece);
    r
}

/// `s` without leading or trailing whitespace.
pub fn trim_str(s: &str) -> (r: String)
    ensures
        r@ == trim_of(s@),
{
    let n = s.unicode_len();
    let mut lo: usize = 0;
    let mut hi: usize = n;
    proof {
        assert(s@.subrange(0, n as int) =~= s@);
    }
    while lo < hi && space_char(s.get_char(lo))
        invariant
            lo <= hi <= n,
            n == s@.len(),
            trim_of(s@.subrange(lo as int, hi as int)) == trim_of(s@),
        decreases hi - lo,
    {
        proof {
            let t = s@.subrange(lo as int, hi as int);
            assert(is_space(t[0]));
            assert(t.drop_first() =~= s@.subrange(lo + 1, hi as int));
        }
        lo = lo + 1;
    }
    while lo < hi && space_char(s.get_char(hi - 1))
        invariant
            lo <= hi <= n,
            n == s@.len(),
            trim_of(s@.subrange(lo as int, hi as int)) == trim_of(s@),
            lo < hi ==> !is_space(s@[lo as int]),
        decreases hi,
    {
        proof {
            let t = s@.subrange(lo as int, hi as int);
            assert(!is_space(t[0]));
            assert(is_space(t.last()));
            assert(t.drop_last() =~= s@.subrange(lo as int, hi - 1));
        }
        hi = hi - 1;
    }
    proof {
        let t = s@.subrange(lo as int, hi as int);
        if t.len() > 0 {
            assert(!is_space(t[0]));
            assert(!is_space(t.last()));
        }
        assert(trim_of(t) == t);
    }
    s.substring_char(lo, hi).to_owned()
}

/// Whether one of the strings in `v` reads as `t`.
pub fn contains_str(v: &Vec<String>, t: &String) -> (r: bool)
    ensures
        r == views_of(v@).contains(t@),
{
    let mut i: usize = 0;
    while i < v.len()
        invariant
            i <= v@.len(),
            forall|j: int| 0 <= j < i ==> views_of(v@)[j] != t@,
        decreases v@.len() - i,
    {
        if v[i] == *t {
            proof {
                assert(views_of(v@)[i as int] == t@);
            }
            return true;
        }
        i = i + 1;
    }
    false
}

} // verus!
