//! Text as a sequence of characters: searching, replacing, trimming and splitting.
use vstd::prelude::*;

verus! {

/// Specifies `String::push`: the given character is appended to the end of the string.
pub assume_specification[ String::push ](s: &mut String, c: char)
    ensures
        final(s)@ == old(s)@.push(c),
;

/// Names what `str::to_lowercase` returns for a text: each character mapped by the Unicode
/// lowercase mapping, with the final sigma told apart by its neighbours.
pub uninterp spec fn lowercase(s: Seq<char>) -> Seq<char>;

/// Calls `str::to_lowercase`. The result is named, not described: it is a function of the text
/// alone.
#[verifier::external_body]
pub(crate) fn lower(s: &str) -> (r: String)
    ensures
        r@ == lowercase(s@),
{
    s.to_lowercase()
}

/// The characters with the Unicode property `White_Space`.
pub open spec fn is_space(c: char) -> bool {
    let n = c as u32;
    ||| 0x9 <= n <= 0xd
    ||| n == 0x20
    ||| n == 0x85
    ||| n == 0xa0
    ||| n == 0x1680
    ||| 0x2000 <= n <= 0x200a
    ||| n == 0x2028
    ||| n == 0x2029
    ||| n == 0x202f
    ||| n == 0x205f
    ||| n == 0x3000
}

/// Whether `c` is white space.
pub fn space(c: char) -> (r: bool)
    ensures
        r == is_space(c),
{
    let n: u32 = c as u32;
    (0x9 <= n && n <= 0xd) || n == 0x20 || n == 0x85 || n == 0xa0 || n == 0x1680 || (0x2000 <= n
        && n <= 0x200a) || n == 0x2028 || n == 0x2029 || n == 0x202f || n == 0x205f || n == 0x3000
}

/// `pat` stands in `s` at position `i`.
pub open spec fn occurs_at(s: Seq<char>, pat: Seq<char>, i: int) -> bool {
    &&& 0 <= i
    &&& i + pat.len() <= s.len()
    &&& s.subrange(i, i + pat.len()) == pat
}

/// `pat` stands somewhere in `s`.
pub open spec fn occurs(s: Seq<char>, pat: Seq<char>) -> bool {
    exists|i: int| occurs_at(s, pat, i)
}

/// `s` with the occurrences of `pat`, taken from the left without overlap, replaced by `to`.
pub open spec fn replaced(s: Seq<char>, pat: Seq<char>, to: Seq<char>) -> Seq<char>
    decreases s.len(),
{
    if pat.len() == 0 || s.len() < pat.len() {
        s
    } else if s.take(pat.len() as int) == pat {
        to + replaced(s.skip(pat.len() as int), pat, to)
    } else {
        seq![s[0]] + replaced(s.skip(1), pat, to)
    }
}

/// `s` without its leading white space.
pub open spec fn trimmed_start(s: Seq<char>) -> Seq<char>
    decreases s.len(),
{
    if s.len() > 0 && is_space(s[0]) {
        trimmed_start(s.skip(1))
    } else {
        s
    }
}

/// `s` without its trailing white space.
pub open spec fn trimmed_end(s: Seq<char>) -> Seq<char>
    decreases s.len(),
{
    if s.len() > 0 && is_space(s.last()) {
        trimmed_end(s.drop_last())
    } else {
        s
    }
}

/// `s` without the white space at both ends.
pub open spec fn trimmed(s: Seq<char>) -> Seq<char> {
    trimmed_end(trimmed_start(s))
}

/// The number of characters of `s` before its first white space.
pub open spec fn word_len(s: Seq<char>) -> nat
    decreases s.len(),
{
    if s.len() == 0 || is_space(s[0]) {
        0
    } else {
        1 + word_len(s.skip(1))
    }
}

/// The first word of `s` lies within `s`.
pub proof fn lemma_word_len(s: Seq<char>)
    ensures
        word_len(s) <= s.len(),
    decreases s.len(),
{
    if s.len() > 0 && !is_space(s[0]) {
        lemma_word_len(s.skip(1));
    }
}

/// The maximal runs of `s` that are free of white space, in order.
pub open spec fn words(s: Seq<char>) -> Seq<Seq<char>>
    decreases s.len(),
{
    let n = word_len(s);
    if s.len() == 0 {
        Seq::empty()
    } else if n == 0 {
        words(s.skip(1))
    } else {
        proof {
            lemma_word_len(s);
        }
        seq![s.take(n as int)] + words(s.skip(n as int))
    }
}

/// The number of characters of `s` before its first `sep`.
pub open spec fn piece_len(s: Seq<char>, sep: char) -> nat
    decreases s.len(),
{
    if s.len() == 0 || s[0] == sep {
        0
    } else {
        1 + piece_len(s.skip(1), sep)
    }
}

/// The parts of `s` between the occurrences of `sep`, in order; one more than there are
/// occurrences.
pub open spec fn pieces(s: Seq<char>, sep: char) -> Seq<Seq<char>>
    decreases s.len(),
{
    let n = piece_len(s, sep);
    if n >= s.len() {
        seq![s]
    } else {
        seq![s.take(n as int)] + pieces(s.skip(n as int + 1), sep)
    }
}

/// The characters of `s` in order.
pub fn to_chars(s: &str) -> (r: Vec<char>)
    ensures
        r@ == s@,
{
    let mut r: Vec<char> = Vec::new();
    for c in it: s.chars()
        invariant
            it.seq() == s@,
            r@ == it.seq().take(it.index()),
    {
        r.push(c);
    }
    r
}

/// The text made of the characters from position `from` up to `to`.
pub fn text_between(s: &Vec<char>, from: usize, to: usize) -> (r: String)
    requires
        from <= to <= s@.len(),
    ensures
        r@ == s@.subrange(from as int, to as int),
{
    let mut r = String::new();
    let mut i: usize = from;
    while i < to
        invariant
            from <= i <= to <= s@.len(),
            r@ == s@.subrange(from as int, i as int),
        decreases to - i,
    {
        r.push(s[i]);
        i = i + 1;
    }
    r
}

/// Whether `pat` stands in `s` at position `i`.
pub fn stands_at(s: &Vec<char>, pat: &Vec<char>, i: usize) -> (r: bool)
    requires
        i <= s@.len(),
    ensures
        r == occurs_at(s@, pat@, i as int),
{
    if pat.len() > s.len() - i {
        return false;
    }
    let mut k: usize = 0;
    while k < pat.len()
        invariant
            i + pat@.len() <= s.len(),
            0 <= k <= pat@.len(),
            forall|j: int| 0 <= j < k ==> s@[i + j] == pat@[j],
        decreases pat@.len() - k,
    {
        if s[i + k] != pat[k] {
            proof {
                let sub = s@.subrange(i as int, i + pat@.len());
                assert(sub[k as int] != pat@[k as int]);
            }
            return false;
        }
        k = k + 1;
    }
    assert(s@.subrange(i as int, i + pat@.len()) =~= pat@);
    true
}

/// Whether two texts are the same.
pub fn same(a: &str, b: &str) -> (r: bool)
    ensures
        r == (a@ == b@),
{
    let left = to_chars(a);
    let right = to_chars(b);
    if left.len() != right.len() {
        return false;
    }
    let r = stands_at(&left, &right, 0);
    assert(a@.subrange(0, a@.len() as int) =~= a@);
    r
}

/// Whether `pat` stands somewhere in `s`.
pub fn contains(s: &str, pat: &str) -> (r: bool)
    ensures
        r == occurs(s@, pat@),
{
    let text = to_chars(s);
    let wanted = to_chars(pat);
    let mut i: usize = 0;
    loop
        invariant
            text@ == s@,
            wanted@ == pat@,
            i <= text@.len(),
            forall|j: int| 0 <= j < i ==> !occurs_at(s@, pat@, j),
        decreases text@.len() - i,
    {
        if stands_at(&text, &wanted, i) {
            return true;
        }
        if i == text.len() {
            return false;
        }
        i = i + 1;
    }
}

/// `s` with every occurrence of `pat` replaced by `to`.
pub fn replace(s: &str, pat: &str, to: &str) -> (r: String)
    requires
        pat@.len() > 0,
    ensures
        r@ == replaced(s@, pat@, to@),
{
    let text = to_chars(s);
    let wanted = to_chars(pat);
    let mut r = String::new();
    let mut i: usize = 0;
    assert(s@.skip(0) =~= s@);
    while i < text.len()
        invariant
            text@ == s@,
            wanted@ == pat@,
            pat@.len() > 0,
            i <= text@.len(),
            replaced(s@, pat@, to@) == r@ + replaced(s@.skip(i as int), pat@, to@),
        decreases text@.len() - i,
    {
        let ghost rest = s@.skip(i as int);
        let ghost done = r@;
        if stands_at(&text, &wanted, i) {
            r.append(to);
            i = i + wanted.len();
            proof {
                assert(rest.take(pat@.len() as int) =~= pat@);
                assert(rest.skip(pat@.len() as int) =~= s@.skip(i as int));
                assert(done + (to@ + replaced(s@.skip(i as int), pat@, to@)) =~= (done + to@)
                    + replaced(s@.skip(i as int), pat@, to@));
            }
        } else {
            r.push(text[i]);
            i = i + 1;
            proof {
                assert(rest.skip(1) =~= s@.skip(i as int));
                if rest.len() >= pat@.len() {
                    assert(rest.take(pat@.len() as int) =~= s@.subrange(
                        i - 1,
                        i - 1 + pat@.len(),
                    ));
                } else {
                    assert(replaced(rest, pat@, to@) == rest);
                    assert(replaced(rest.skip(1), pat@, to@) == rest.skip(1));
                    assert(rest =~= seq![rest[0]] + rest.skip(1));
                }
                assert(done + (seq![rest[0]] + replaced(s@.skip(i as int), pat@, to@)) =~= done.push(
                    rest[0],
                ) + replaced(s@.skip(i as int), pat@, to@));
            }
        }
    }
    assert(s@.skip(i as int) =~= Seq::<char>::empty());
    assert(r@ + Seq::<char>::empty() =~= r@);
    r
}

/// `s` without the white space at both ends.
pub fn trim(s: &str) -> (r: String)
    ensures
        r@ == trimmed(s@),
{
    let text = to_chars(s);
    let mut from: usize = 0;
    assert(s@.skip(0) =~= s@);
    while from < text.len() && space(text[from])
        invariant
            text@ == s@,
            from <= text@.len(),
            trimmed_start(s@) == trimmed_start(s@.skip(from as int)),
        decreases text@.len() - from,
    {
        assert(s@.skip(from as int).skip(1) =~= s@.skip(from + 1));
        from = from + 1;
    }
    let mut to: usize = text.len();
    assert(s@.subrange(from as int, to as int) =~= s@.skip(from as int));
    while from < to && space(text[to - 1])
        invariant
            text@ == s@,
            from <= to <= text@.len(),
            trimmed(s@) == trimmed_end(s@.subrange(from as int, to as int)),
        decreases to,
    {
        assert(s@.subrange(from as int, to as int).drop_last() =~= s@.subrange(
            from as int,
            to - 1,
        ));
        to = to - 1;
    }
    text_between(&text, from, to)
}

/// The first `n` characters of `s`, or all of it where it is shorter.
pub fn first_chars(s: &str, n: usize) -> (r: String)
    ensures
        r@ == s@.take(if s@.len() < n { s@.len() as int } else { n as int }),
{
    let text = to_chars(s);
    let to: usize = if text.len() < n { text.len() } else { n };
    text_between(&text, 0, to)
}

/// The maximal runs of `s` that are free of white space.
pub fn split_words(s: &str) -> (r: Vec<String>)
    ensures
        r.deep_view() == words(s@),
{
    let text = to_chars(s);
    let mut r: Vec<String> = Vec::new();
    let mut i: usize = 0;
    assert(s@.skip(0) =~= s@);
    assert(r.deep_view() + words(s@) =~= words(s@));
    while i < text.len()
        invariant
            text@ == s@,
            i <= text@.len(),
            words(s@) == r.deep_view() + words(s@.skip(i as int)),
        decreases text@.len() - i,
    {
        let ghost rest = s@.skip(i as int);
        assert(rest.skip(1) =~= s@.skip(i + 1));
        if space(text[i]) {
            i = i + 1;
        } else {
            let from: usize = i;
            while i < text.len() && !space(text[i])
                invariant
                    text@ == s@,
                    from <= i <= text@.len(),
                    rest == s@.skip(from as int),
                    word_len(rest) == (i - from) + word_len(s@.skip(i as int)),
                decreases text@.len() - i,
            {
                assert(s@.skip(i as int).skip(1) =~= s@.skip(i + 1));
                i = i + 1;
            }
            let word = text_between(&text, from, i);
            let ghost before = r.deep_view();
            r.push(word);
            proof {
                assert(word_len(rest) == i - from);
                assert(word_len(rest) > 0);
                assert(rest.take(i - from) =~= word@);
                assert(rest.skip(i - from) =~= s@.skip(i as int));
                assert(r.deep_view() =~= before.push(word@));
                assert(before + (seq![word@] + words(s@.skip(i as int))) =~= before.push(word@)
                    + words(s@.skip(i as int)));
            }
        }
    }
    assert(s@.skip(i as int) =~= Seq::<char>::empty());
    assert(r.deep_view() + Seq::<Seq<char>>::empty() =~= r.deep_view());
    r
}

/// The parts of `s` between the occurrences of `sep`.
pub fn split_at_char(s: &str, sep: char) -> (r: Vec<String>)
    ensures
        r.deep_view() == pieces(s@, sep),
{
    let text = to_chars(s);
    let mut r: Vec<String> = Vec::new();
    let mut from: usize = 0;
    assert(s@.skip(0) =~= s@);
    assert(r.deep_view() + pieces(s@, sep) =~= pieces(s@, sep));
    loop
        invariant
            text@ == s@,
            from <= text@.len(),
            pieces(s@, sep) == r.deep_view() + pieces(s@.skip(from as int), sep),
        decreases text@.len() - from,
    {
        let ghost rest = s@.skip(from as int);
        let mut i: usize = from;
        while i < text.len() && text[i] != sep
            invariant
                text@ == s@,
                from <= i <= text@.len(),
                rest == s@.skip(from as int),
                piece_len(rest, sep) == (i - from) + piece_len(s@.skip(i as int), sep),
            decreases text@.len() - i,
        {
            assert(s@.skip(i as int).skip(1) =~= s@.skip(i + 1));
            i = i + 1;
        }
        let piece = text_between(&text, from, i);
        let ghost before = r.deep_view();
        r.push(piece);
        assert(piece_len(rest, sep) == i - from);
        assert(r.deep_view() =~= before.push(piece@));
        assert(rest.take(i - from) =~= piece@);
        if i == text.len() {
            proof {
                assert(rest =~= piece@);
                assert(before + seq![rest] =~= before.push(piece@));
            }
            return r;
        }
        from = i + 1;
        proof {
            assert(rest.skip(i - (from - 1) + piece_len(rest, sep) + 1) =~= s@.skip(from as int));
            assert(before + (seq![piece@] + pieces(s@.skip(from as int), sep)) =~= before.push(
                piece@,
            ) + pieces(s@.skip(from as int), sep));
        }
    }
}

/// Replacing brings in no character that neither the text nor the replacement has.
pub proof fn law_replaced_brings_no_character(
    s: Seq<char>,
    pat: Seq<char>,
    to: Seq<char>,
    c: char,
)
    requires
        !s.contains(c),
        !to.contains(c),
    ensures
        !replaced(s, pat, to).contains(c),
    decreases s.len(),
{
    if pat.len() == 0 || s.len() < pat.len() {
    } else if s.take(pat.len() as int) == pat {
        let rest = s.skip(pat.len() as int);
        assert(!rest.contains(c)) by {
            if rest.contains(c) {
                let i = choose|i: int| 0 <= i < rest.len() && rest[i] == c;
                assert(s[i + pat.len()] == c);
            }
        }
        law_replaced_brings_no_character(rest, pat, to, c);
        lemma_joined_free(to, replaced(rest, pat, to), c);
    } else {
        let rest = s.skip(1);
        assert(!rest.contains(c)) by {
            if rest.contains(c) {
                let i = choose|i: int| 0 <= i < rest.len() && rest[i] == c;
                assert(s[i + 1] == c);
            }
        }
        assert(s[0] != c);
        law_replaced_brings_no_character(rest, pat, to, c);
        lemma_joined_free(seq![s[0]], replaced(rest, pat, to), c);
    }
}

/// Two texts without a character, joined, are without it.
proof fn lemma_joined_free(a: Seq<char>, b: Seq<char>, c: char)
    requires
        !a.contains(c),
        !b.contains(c),
    ensures
        !(a + b).contains(c),
{
    if (a + b).contains(c) {
        let i = choose|i: int| 0 <= i < (a + b).len() && (a + b)[i] == c;
        if i < a.len() {
            assert(a[i] == c);
        } else {
            assert(b[i - a.len()] == c);
        }
    }
}

/// Replacing a character by a text without it takes it out.
pub proof fn law_replaced_character_is_gone(s: Seq<char>, c: char, to: Seq<char>)
    requires
        !to.contains(c),
    ensures
        !replaced(s, seq![c], to).contains(c),
    decreases s.len(),
{
    let pat = seq![c];
    if s.len() == 0 {
    } else if s.take(1) == pat {
        law_replaced_character_is_gone(s.skip(1), c, to);
        lemma_joined_free(to, replaced(s.skip(1), pat, to), c);
    } else {
        assert(s[0] != c) by {
            if s[0] == c {
                assert(s.take(1) =~= pat);
            }
        }
        law_replaced_character_is_gone(s.skip(1), c, to);
        lemma_joined_free(seq![s[0]], replaced(s.skip(1), pat, to), c);
    }
}

/// Where the pattern does not stand in the text, replacing changes nothing.
pub proof fn law_replaced_without_occurrence(s: Seq<char>, pat: Seq<char>, to: Seq<char>)
    requires
        !occurs(s, pat),
    ensures
        replaced(s, pat, to) == s,
    decreases s.len(),
{
    if pat.len() == 0 || s.len() < pat.len() {
    } else {
        assert(!(s.take(pat.len() as int) == pat)) by {
            if s.take(pat.len() as int) == pat {
                assert(s.take(pat.len() as int) =~= s.subrange(0, pat.len() as int));
                assert(occurs_at(s, pat, 0));
            }
        }
        let rest = s.skip(1);
        assert(!occurs(rest, pat)) by {
            if occurs(rest, pat) {
                let i = choose|i: int| occurs_at(rest, pat, i);
                assert(rest.subrange(i, i + pat.len()) =~= s.subrange(i + 1, i + 1 + pat.len()));
                assert(occurs_at(s, pat, i + 1));
            }
        }
        law_replaced_without_occurrence(rest, pat, to);
        assert(seq![s[0]] + rest =~= s);
    }
}

/// The two texts have no character in common.
pub open spec fn no_common_character(a: Seq<char>, b: Seq<char>) -> bool {
    forall|i: int| 0 <= i < a.len() ==> !b.contains(#[trigger] a[i])
}

/// A beginning of a replaced text that has nothing of the replacement was there before.
proof fn lemma_replaced_beginning(s: Seq<char>, pat: Seq<char>, to: Seq<char>, q: Seq<char>)
    requires
        to.len() > 0,
        no_common_character(q, to),
        q.len() <= replaced(s, pat, to).len(),
        replaced(s, pat, to).take(q.len() as int) == q,
    ensures
        q.len() <= s.len(),
        s.take(q.len() as int) == q,
    decreases s.len(),
{
    let all = replaced(s, pat, to);
    if q.len() == 0 {
        assert(s.take(0) =~= q);
    } else if pat.len() == 0 || s.len() < pat.len() {
    } else if s.take(pat.len() as int) == pat {
        assert(all[0] == to[0]);
        assert(all.take(q.len() as int)[0] == to[0]);
        assert(q[0] == to[0]);
        assert(to.contains(q[0]));
    } else {
        let rest = replaced(s.skip(1), pat, to);
        let tail = q.skip(1);
        assert(all.take(q.len() as int)[0] == s[0]);
        assert(rest.take(tail.len() as int) =~= tail) by {
            assert forall|i: int| 0 <= i < tail.len() implies rest[i] == tail[i] by {
                assert(all.take(q.len() as int)[i + 1] == rest[i]);
            }
        }
        assert forall|i: int| 0 <= i < tail.len() implies !to.contains(#[trigger] tail[i]) by {
            assert(tail[i] == q[i + 1]);
        }
        lemma_replaced_beginning(s.skip(1), pat, to, tail);
        assert(s.take(q.len() as int) =~= q) by {
            assert forall|i: int| 0 <= i < q.len() implies s[i] == q[i] by {
                if i > 0 {
                    assert(s.skip(1).take(tail.len() as int)[i - 1] == tail[i - 1]);
                }
            }
        }
    }
}

/// Replacing by a text that has no character in common with `p` brings in no occurrence of `p`,
/// and takes out every one where `p` is what is replaced.
pub proof fn law_replaced_occurrences(
    s: Seq<char>,
    pat: Seq<char>,
    to: Seq<char>,
    p: Seq<char>,
)
    requires
        p.len() > 0,
        to.len() > 0,
        no_common_character(p, to),
    ensures
        occurs(replaced(s, pat, to), p) ==> occurs(s, p) && p != pat,
    decreases s.len(),
{
    let all = replaced(s, pat, to);
    if occurs(all, p) {
        let i = choose|i: int| occurs_at(all, p, i);
        assert(all.subrange(i, i + p.len())[0] == all[i]);
        if pat.len() == 0 || s.len() < pat.len() {
        } else if s.take(pat.len() as int) == pat {
            let rest = s.skip(pat.len() as int);
            if i < to.len() {
                assert(to.contains(p[0]));
            } else {
                let r = replaced(rest, pat, to);
                assert(all.subrange(i, i + p.len()) =~= r.subrange(
                    i - to.len(),
                    i - to.len() + p.len(),
                ));
                assert(occurs_at(r, p, i - to.len()));
                law_replaced_occurrences(rest, pat, to, p);
                lemma_occurs_in_whole(s, pat.len() as int, p);
            }
        } else {
            let rest = s.skip(1);
            let r = replaced(rest, pat, to);
            if i == 0 {
                assert(all.take(p.len() as int) =~= all.subrange(0, p.len() as int));
                lemma_replaced_beginning(s, pat, to, p);
                assert(s.take(p.len() as int) =~= s.subrange(0, p.len() as int));
                assert(occurs_at(s, p, 0));
            } else {
                assert(all.subrange(i, i + p.len()) =~= r.subrange(i - 1, i - 1 + p.len()));
                assert(occurs_at(r, p, i - 1));
                law_replaced_occurrences(rest, pat, to, p);
                lemma_occurs_in_whole(s, 1, p);
            }
        }
    }
}

/// What stands in the end of a text stands in the text.
proof fn lemma_occurs_in_whole(s: Seq<char>, n: int, p: Seq<char>)
    requires
        0 <= n <= s.len(),
        occurs(s.skip(n), p),
    ensures
        occurs(s, p),
{
    let i = choose|i: int| occurs_at(s.skip(n), p, i);
    assert(s.skip(n).subrange(i, i + p.len()) =~= s.subrange(i + n, i + n + p.len()));
    assert(occurs_at(s, p, i + n));
}

/// A text is trimmed to a part of itself.
proof fn lemma_trimmed_start_part(s: Seq<char>) -> (n: int)
    ensures
        0 <= n <= s.len(),
        trimmed_start(s) == s.skip(n),
        trimmed_start(s).len() > 0 ==> !is_space(trimmed_start(s)[0]),
    decreases s.len(),
{
    if s.len() > 0 && is_space(s[0]) {
        let n = lemma_trimmed_start_part(s.skip(1));
        assert(s.skip(1).skip(n) =~= s.skip(n + 1));
        n + 1
    } else {
        assert(s.skip(0) =~= s);
        0
    }
}

/// A text is trimmed to a part of itself.
proof fn lemma_trimmed_end_part(s: Seq<char>) -> (n: int)
    ensures
        0 <= n <= s.len(),
        trimmed_end(s) == s.take(n),
        trimmed_end(s).len() > 0 ==> !is_space(trimmed_end(s).last()),
    decreases s.len(),
{
    if s.len() > 0 && is_space(s.last()) {
        let n = lemma_trimmed_end_part(s.drop_last());
        assert(s.drop_last().take(n) =~= s.take(n));
        n
    } else {
        assert(s.take(s.len() as int) =~= s);
        s.len() as int
    }
}

/// A trimmed text neither begins nor ends with white space, and has only characters of the text.
pub proof fn law_trimmed(s: Seq<char>)
    ensures
        trimmed(s).len() > 0 ==> !is_space(trimmed(s)[0]) && !is_space(trimmed(s).last()),
        forall|c: char| !s.contains(c) ==> !(#[trigger] trimmed(s).contains(c)),
{
    let a = trimmed_start(s);
    let n = lemma_trimmed_start_part(s);
    let m = lemma_trimmed_end_part(a);
    assert forall|c: char| !s.contains(c) implies !(#[trigger] trimmed(s).contains(c)) by {
        if trimmed(s).contains(c) {
            let i = choose|i: int| 0 <= i < trimmed(s).len() && trimmed(s)[i] == c;
            assert(s[n + i] == c);
        }
    }
}

/// Trimming a trimmed text changes nothing.
pub proof fn law_trimmed_twice(s: Seq<char>)
    ensures
        trimmed(trimmed(s)) == trimmed(s),
{
    law_trimmed(s);
}

/// The white space characters are these and no others.
pub proof fn law_white_space(c: char)
    ensures
        is_space(c) <==> {
            ||| c == '\t' || c == '\n' || c == '\u{b}' || c == '\u{c}' || c == '\r' || c == ' '
            ||| c == '\u{85}' || c == '\u{a0}' || c == '\u{1680}'
            ||| c == '\u{2000}' || c == '\u{2001}' || c == '\u{2002}' || c == '\u{2003}'
            ||| c == '\u{2004}' || c == '\u{2005}' || c == '\u{2006}' || c == '\u{2007}'
            ||| c == '\u{2008}' || c == '\u{2009}' || c == '\u{200a}'
            ||| c == '\u{2028}' || c == '\u{2029}' || c == '\u{202f}' || c == '\u{205f}'
            ||| c == '\u{3000}'
        },
{
}

/// `s` is made of white space.
pub open spec fn is_blank(s: Seq<char>) -> bool {
    forall|i: int| 0 <= i < s.len() ==> is_space(#[trigger] s[i])
}

/// `s` has no white space.
pub open spec fn is_unbroken(s: Seq<char>) -> bool {
    forall|i: int| 0 <= i < s.len() ==> !is_space(#[trigger] s[i])
}

/// A pattern stands in a text exactly if the text is something, the pattern, and something.
pub proof fn law_occurs(s: Seq<char>, pat: Seq<char>)
    ensures
        occurs(s, pat) <==> exists|a: Seq<char>, b: Seq<char>| s == #[trigger] (a + pat + b),
{
    if occurs(s, pat) {
        let i = choose|i: int| occurs_at(s, pat, i);
        let a = s.take(i);
        let b = s.skip(i + pat.len());
        assert(s =~= a + pat + b) by {
            assert forall|k: int| 0 <= k < s.len() implies s[k] == (a + pat + b)[k] by {
                if i <= k < i + pat.len() {
                    assert(s.subrange(i, i + pat.len())[k - i] == pat[k - i]);
                }
            }
        }
    }
    if exists|a: Seq<char>, b: Seq<char>| s == #[trigger] (a + pat + b) {
        let (a, b) = choose|a: Seq<char>, b: Seq<char>| s == #[trigger] (a + pat + b);
        assert(s.subrange(a.len() as int, (a.len() + pat.len()) as int) =~= pat);
        assert(occurs_at(s, pat, a.len() as int));
    }
}

/// What comes before the first occurrence of a pattern is left alone.
pub proof fn lemma_replaced_after(a: Seq<char>, b: Seq<char>, pat: Seq<char>, to: Seq<char>)
    requires
        forall|i: int| 0 <= i < a.len() ==> !#[trigger] occurs_at(a + b, pat, i),
    ensures
        replaced(a + b, pat, to) == a + replaced(b, pat, to),
    decreases a.len(),
{
    let s = a + b;
    if a.len() == 0 {
        assert(s =~= b);
        assert(a + replaced(b, pat, to) =~= replaced(b, pat, to));
    } else if pat.len() == 0 || s.len() < pat.len() {
    } else {
        assert(s.take(pat.len() as int) =~= s.subrange(0, pat.len() as int));
        assert(!occurs_at(s, pat, 0));
        let rest = a.skip(1);
        assert(s.skip(1) =~= rest + b);
        assert forall|i: int| 0 <= i < rest.len() implies !#[trigger] occurs_at(
            rest + b,
            pat,
            i,
        ) by {
            assert(!occurs_at(s, pat, i + 1));
            if occurs_at(rest + b, pat, i) {
                assert(s.subrange(i + 1, i + 1 + pat.len()) =~= (rest + b).subrange(
                    i,
                    i + pat.len(),
                ));
            }
        }
        lemma_replaced_after(rest, b, pat, to);
        assert(seq![s[0]] + (rest + replaced(b, pat, to)) =~= a + replaced(b, pat, to));
    }
}

/// The first occurrence of a pattern is replaced, what comes before it stays, and what comes after
/// it is replaced in turn.
pub proof fn law_replaced_first(a: Seq<char>, pat: Seq<char>, b: Seq<char>, to: Seq<char>)
    requires
        pat.len() > 0,
        forall|i: int| 0 <= i < a.len() ==> !#[trigger] occurs_at(a + (pat + b), pat, i),
    ensures
        replaced(a + (pat + b), pat, to) == a + (to + replaced(b, pat, to)),
{
    lemma_replaced_after(a, pat + b, pat, to);
    assert((pat + b).take(pat.len() as int) =~= pat);
    assert((pat + b).skip(pat.len() as int) =~= b);
}

/// Replacing one character by another changes it wherever it stands, and nothing else.
pub proof fn law_replaced_character(s: Seq<char>, c: char, d: char)
    ensures
        replaced(s, seq![c], seq![d]).len() == s.len(),
        forall|i: int|
            0 <= i < s.len() ==> #[trigger] replaced(s, seq![c], seq![d])[i] == (if s[i] == c {
                d
            } else {
                s[i]
            }),
    decreases s.len(),
{
    if s.len() > 0 {
        let rest = s.skip(1);
        law_replaced_character(rest, c, d);
        if s[0] == c {
            assert(s.take(1) =~= seq![c]);
        } else {
            assert(s.take(1)[0] != seq![c][0]);
        }
        let all = replaced(s, seq![c], seq![d]);
        assert forall|i: int| 0 <= i < s.len() implies #[trigger] all[i] == (if s[i] == c {
            d
        } else {
            s[i]
        }) by {
            if i > 0 {
                assert(all[i] == replaced(rest, seq![c], seq![d])[i - 1]);
            }
        }
    }
}

/// Replacing a character by nothing leaves the other characters, in order.
pub proof fn law_removed_character(s: Seq<char>, c: char)
    ensures
        replaced(s, seq![c], Seq::empty()) == s.filter(|x: char| x != c),
    decreases s.len(),
{
    reveal(Seq::filter);
    let keep = |x: char| x != c;
    if s.len() > 0 {
        let rest = s.skip(1);
        law_removed_character(rest, c);
        assert(s =~= seq![s[0]] + rest);
        Seq::filter_distributes_over_add(seq![s[0]], rest, keep);
        assert(seq![s[0]].drop_last() =~= Seq::<char>::empty());
        assert(seq![s[0]].drop_last().filter(keep) =~= Seq::<char>::empty());
        if s[0] == c {
            assert(s.take(1) =~= seq![c]);
            assert(seq![s[0]].filter(keep) =~= Seq::<char>::empty());
        } else {
            assert(s.take(1)[0] != seq![c][0]);
            assert(seq![s[0]].filter(keep) =~= seq![s[0]]);
        }
        assert(replaced(s, seq![c], Seq::empty()) =~= s.filter(keep));
    } else {
        assert(s.filter(keep) =~= Seq::<char>::empty());
    }
}

/// White space before a text is trimmed off.
proof fn lemma_blank_start(a: Seq<char>, m: Seq<char>)
    requires
        is_blank(a),
    ensures
        trimmed_start(a + m) == trimmed_start(m),
    decreases a.len(),
{
    if a.len() == 0 {
        assert(a + m =~= m);
    } else {
        assert(is_space(a[0]));
        assert((a + m).skip(1) =~= a.skip(1) + m);
        lemma_blank_start(a.skip(1), m);
    }
}

/// White space behind a text is trimmed off.
proof fn lemma_blank_end(m: Seq<char>, b: Seq<char>)
    requires
        is_blank(b),
    ensures
        trimmed_end(m + b) == trimmed_end(m),
    decreases b.len(),
{
    if b.len() == 0 {
        assert(m + b =~= m);
    } else {
        assert(is_space(b[b.len() - 1]));
        assert((m + b).last() == b.last());
        assert((m + b).drop_last() =~= m + b.drop_last());
        lemma_blank_end(m, b.drop_last());
    }
}

/// Trimming takes off the white space at both ends, all of it, and nothing else: whatever white
/// space stands around a text that neither begins nor ends with any, the text is what is left.
pub proof fn law_trimmed_is_the_middle(a: Seq<char>, m: Seq<char>, b: Seq<char>)
    requires
        is_blank(a),
        is_blank(b),
        m.len() > 0 ==> !is_space(m[0]) && !is_space(m.last()),
    ensures
        trimmed(a + m + b) == m,
{
    assert(a + m + b =~= a + (m + b));
    lemma_blank_start(a, m + b);
    if m.len() == 0 {
        assert(m + b =~= b + Seq::empty());
        lemma_blank_start(b, Seq::empty());
        assert(trimmed_start(Seq::<char>::empty()) =~= Seq::<char>::empty());
        assert(m =~= Seq::<char>::empty());
    } else {
        assert((m + b)[0] == m[0]);
        lemma_blank_end(m, b);
    }
}

/// A run without white space is as long as it is.
proof fn lemma_word_len_is(w: Seq<char>, rest: Seq<char>)
    requires
        is_unbroken(w),
        rest.len() > 0 ==> is_space(rest[0]),
    ensures
        word_len(w + rest) == w.len(),
    decreases w.len(),
{
    if w.len() == 0 {
        assert(w + rest =~= rest);
    } else {
        assert(!is_space(w[0]));
        assert((w + rest).skip(1) =~= w.skip(1) + rest);
        lemma_word_len_is(w.skip(1), rest);
    }
}

/// White space parts words and belongs to none: a run without white space, followed by white
/// space or by nothing, is a word, and the words of what follows come behind it.
pub proof fn law_words(w: Seq<char>, c: char, rest: Seq<char>)
    requires
        is_unbroken(w),
        is_space(c),
    ensures
        words(Seq::empty()) == Seq::<Seq<char>>::empty(),
        words(seq![c] + rest) == words(rest),
        w.len() > 0 ==> words(w) == seq![w],
        w.len() > 0 ==> words(w + (seq![c] + rest)) == seq![w] + words(rest),
{
    let tail = seq![c] + rest;
    assert(tail.skip(1) =~= rest);
    assert(words(tail) == words(rest));
    if w.len() > 0 {
        lemma_word_len_is(w, tail);
        assert((w + tail).take(w.len() as int) =~= w);
        assert((w + tail).skip(w.len() as int) =~= tail);
        lemma_word_len_is(w, Seq::empty());
        assert(w + Seq::empty() =~= w);
        assert(w.take(w.len() as int) =~= w);
        assert(w.skip(w.len() as int) =~= Seq::<char>::empty());
        assert(words(Seq::<char>::empty()) =~= Seq::<Seq<char>>::empty());
        assert(seq![w] + Seq::<Seq<char>>::empty() =~= seq![w]);
    }
}

/// A run without the separator is as long as it is.
proof fn lemma_piece_len_is(a: Seq<char>, sep: char, rest: Seq<char>)
    requires
        !a.contains(sep),
        rest.len() > 0 ==> rest[0] == sep,
    ensures
        piece_len(a + rest, sep) == a.len(),
    decreases a.len(),
{
    if a.len() == 0 {
        assert(a + rest =~= rest);
    } else {
        assert(a.contains(a[0]));
        assert((a + rest).skip(1) =~= a.skip(1) + rest);
        assert(!a.skip(1).contains(sep)) by {
            if a.skip(1).contains(sep) {
                let i = choose|i: int| 0 <= i < a.skip(1).len() && a.skip(1)[i] == sep;
                assert(a[i + 1] == sep);
            }
        }
        lemma_piece_len_is(a.skip(1), sep, rest);
    }
}

/// The separator parts pieces and belongs to none: a text without it is one piece, and what
/// stands before the first one is the first piece, even where nothing stands there.
pub proof fn law_pieces(a: Seq<char>, sep: char, rest: Seq<char>)
    requires
        !a.contains(sep),
    ensures
        pieces(a, sep) == seq![a],
        pieces(a + (seq![sep] + rest), sep) == seq![a] + pieces(rest, sep),
{
    let tail = seq![sep] + rest;
    lemma_piece_len_is(a, sep, tail);
    lemma_piece_len_is(a, sep, Seq::empty());
    assert(a + Seq::empty() =~= a);
    assert((a + tail).take(a.len() as int) =~= a);
    assert((a + tail).skip(a.len() as int + 1) =~= rest);
}

} // verus!
