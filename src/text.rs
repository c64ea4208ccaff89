use vstd::prelude::*;

verus! {

/// Relies on `String::push`: appends one character at the end.
#[verifier::external_body]
pub(crate) fn push_char(s: &mut String, c: char)
    ensures
        final(s)@ == old(s)@.push(c),
{
    s.push(c)
}

/// The characters of a string, one element each.
pub fn chars_of(s: &str) -> (r: Vec<char>)
    ensures
        r@ == s@,
{
    let n = s.unicode_len();
    let mut r: Vec<char> = Vec::new();
    let mut i: usize = 0;
    while i < n
        invariant
            n == s@.len(),
            i <= n,
            r@ == s@.subrange(0, i as int),
        decreases n - i,
    {
        r.push(s.get_char(i));
        i = i + 1;
    }
    assert(r@ =~= s@);
    r
}

/// The pieces of `s` between occurrences of `sep`, read left to right; there is
/// always one piece more than there are separators.
pub open spec fn split_on(s: Seq<char>, sep: char) -> Seq<Seq<char>>
    decreases s.len(),
{
    if s.len() == 0 {
        seq![Seq::empty()]
    } else {
        let parts = split_on(s.drop_last(), sep);
        if s.last() == sep {
            parts.push(Seq::empty())
        } else {
            parts.update(parts.len() - 1, parts.last().push(s.last()))
        }
    }
}

pub proof fn lemma_split_on_len(s: Seq<char>, sep: char)
    ensures
        split_on(s, sep).len() >= 1,
    decreases s.len(),
{
    if s.len() > 0 {
        lemma_split_on_len(s.drop_last(), sep);
    }
}

/// Splits `s` at every occurrence of `sep`.
pub fn split_chars(s: &Vec<char>, sep: char) -> (r: Vec<Vec<char>>)
    ensures
        r@.len() == split_on(s@, sep).len(),
        forall|j: int| 0 <= j < r@.len() ==> #[trigger] r@[j]@ == split_on(s@, sep)[j],
{
    let mut parts: Vec<Vec<char>> = Vec::new();
    let mut cur: Vec<char> = Vec::new();
    let mut i: usize = 0;
    while i < s.len()
        invariant
            i <= s@.len(),
            split_on(s@.take(i as int), sep).len() == parts@.len() + 1,
            forall|j: int| 0 <= j < parts@.len() ==> #[trigger] parts@[j]@ == split_on(s@.take(i as int), sep)[j],
            cur@ == split_on(s@.take(i as int), sep).last(),
        decreases s@.len() - i,
    {
        assert(s@.take(i + 1).drop_last() =~= s@.take(i as int));
        proof {
            lemma_split_on_len(s@.take(i as int), sep);
        }
        let c = s[i];
        if c == sep {
            parts.push(cur);
            cur = Vec::new();
        } else {
            cur.push(c);
        }
        i = i + 1;
    }
    assert(s@.take(i as int) =~= s@);
    parts.push(cur);
    parts
}

/// Text without separators extends the last piece.
pub proof fn lemma_split_on_append(x: Seq<char>, y: Seq<char>, sep: char)
    requires
        forall|i: int| 0 <= i < y.len() ==> y[i] != sep,
    ensures
        split_on(x + y, sep) == split_on(x, sep).update(
            split_on(x, sep).len() - 1,
            split_on(x, sep).last() + y,
        ),
    decreases y.len(),
{
    lemma_split_on_len(x, sep);
    let p = split_on(x, sep);
    if y.len() == 0 {
        assert(x + y =~= x);
        assert(p.last() + y =~= p.last());
        assert(p.update(p.len() - 1, p.last() + y) =~= p);
    } else {
        let y0 = y.drop_last();
        lemma_split_on_append(x, y0, sep);
        assert((x + y).drop_last() =~= x + y0);
        assert((p.last() + y0).push(y.last()) =~= p.last() + y);
        assert(split_on(x + y, sep) =~= p.update(p.len() - 1, p.last() + y));
    }
}

/// A separator starts a new, empty piece.
pub proof fn lemma_split_on_sep(x: Seq<char>, sep: char)
    ensures
        split_on(x.push(sep), sep) == split_on(x, sep).push(Seq::empty()),
{
    assert(x.push(sep).drop_last() =~= x);
}

/// A character that separates fields.
pub open spec fn is_blank(c: char) -> bool {
    c == ' ' || c == '\t' || c == '\n' || c == '\r'
}

/// Fields finished so far, and the field being read.
pub open spec fn word_scan(s: Seq<char>) -> (Seq<Seq<char>>, Seq<char>)
    decreases s.len(),
{
    if s.len() == 0 {
        (Seq::empty(), Seq::empty())
    } else {
        let (done, cur) = word_scan(s.drop_last());
        if is_blank(s.last()) {
            if cur.len() > 0 {
                (done.push(cur), Seq::empty())
            } else {
                (done, Seq::empty())
            }
        } else {
            (done, cur.push(s.last()))
        }
    }
}

/// The non-empty runs of non-blank characters of `s`, in order.
pub open spec fn words(s: Seq<char>) -> Seq<Seq<char>> {
    let (done, cur) = word_scan(s);
    if cur.len() > 0 {
        done.push(cur)
    } else {
        done
    }
}

/// A non-empty text without blanks.
pub open spec fn is_word(w: Seq<char>) -> bool {
    w.len() > 0 && forall|i: int| 0 <= i < w.len() ==> !#[trigger] is_blank(w[i])
}

/// Fields joined by single spaces.
pub open spec fn join_words(fs: Seq<Seq<char>>) -> Seq<char>
    decreases fs.len(),
{
    if fs.len() == 0 {
        Seq::empty()
    } else if fs.len() == 1 {
        fs[0]
    } else {
        join_words(fs.drop_last()).push(' ') + fs.last()
    }
}

proof fn lemma_word_scan_append(x: Seq<char>, y: Seq<char>)
    requires
        forall|i: int| 0 <= i < y.len() ==> !#[trigger] is_blank(y[i]),
    ensures
        word_scan(x + y) == (word_scan(x).0, word_scan(x).1 + y),
    decreases y.len(),
{
    if y.len() == 0 {
        assert(x + y =~= x);
        assert(word_scan(x).1 + y =~= word_scan(x).1);
    } else {
        let y0 = y.drop_last();
        lemma_word_scan_append(x, y0);
        assert((x + y).drop_last() =~= x + y0);
        assert(!is_blank(y[y.len() - 1]));
        assert((word_scan(x).1 + y0).push(y.last()) =~= word_scan(x).1 + y);
    }
}

/// Fields of non-blank text joined by spaces split back into those fields.
pub proof fn lemma_words_join(fs: Seq<Seq<char>>)
    requires
        fs.len() >= 1,
        forall|i: int| 0 <= i < fs.len() ==> #[trigger] is_word(fs[i]),
    ensures
        word_scan(join_words(fs)) == (fs.drop_last(), fs.last()),
        words(join_words(fs)) == fs,
    decreases fs.len(),
{
    assert(is_word(fs[fs.len() - 1]));
    if fs.len() == 1 {
        lemma_word_scan_append(Seq::empty(), fs[0]);
        assert(Seq::<char>::empty() + fs[0] =~= fs[0]);
        assert(fs.drop_last() =~= Seq::<Seq<char>>::empty());
        assert(Seq::<Seq<char>>::empty().push(fs[0]) =~= fs);
    } else {
        let head = fs.drop_last();
        assert forall|i: int| 0 <= i < head.len() implies #[trigger] is_word(head[i]) by {
            assert(is_word(fs[i]));
        }
        lemma_words_join(head);
        let x = join_words(head);
        assert(x.push(' ').drop_last() =~= x);
        lemma_word_scan_append(x.push(' '), fs.last());
        assert(Seq::<char>::empty() + fs.last() =~= fs.last());
        assert(head.push(fs.last()) =~= fs);
    }
}

/// Splits `s` into its fields: the non-empty runs of non-blank characters.
pub fn split_words(s: &Vec<char>) -> (r: Vec<Vec<char>>)
    ensures
        r@.len() == words(s@).len(),
        forall|j: int| 0 <= j < r@.len() ==> #[trigger] r@[j]@ == words(s@)[j],
{
    let mut done: Vec<Vec<char>> = Vec::new();
    let mut cur: Vec<char> = Vec::new();
    let mut i: usize = 0;
    while i < s.len()
        invariant
            i <= s@.len(),
            word_scan(s@.take(i as int)).0.len() == done@.len(),
            forall|j: int| 0 <= j < done@.len() ==> #[trigger] done@[j]@ == word_scan(s@.take(i as int)).0[j],
            cur@ == word_scan(s@.take(i as int)).1,
        decreases s@.len() - i,
    {
        assert(s@.take(i + 1).drop_last() =~= s@.take(i as int));
        let c = s[i];
        if c == ' ' || c == '\t' || c == '\n' || c == '\r' {
            if cur.len() > 0 {
                done.push(cur);
                cur = Vec::new();
            }
        } else {
            cur.push(c);
        }
        i = i + 1;
    }
    assert(s@.take(i as int) =~= s@);
    if cur.len() > 0 {
        done.push(cur);
    }
    done
}

} // verus!
