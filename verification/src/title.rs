//! Titles and search queries.
use vstd::prelude::*;
use crate::outside::{
    regex_captured, regex_captures, regex_replace_all, regex_replaced,
    FEATURE_PATTERN, MIX_PATTERN,
};
use crate::text::{
    is_space, is_unbroken, law_replaced_brings_no_character, law_replaced_character,
    law_replaced_character_is_gone, law_replaced_first, law_replaced_without_occurrence,
    law_trimmed, law_trimmed_is_the_middle, lemma_replaced_after, occurs, occurs_at, replace,
    replaced, trim, trimmed,
};

verus! {

/// A title without its featured-artist notes.
pub open spec fn without_features(title: Seq<char>) -> Seq<char> {
    regex_replaced(FEATURE_PATTERN@, title, ""@)
}

/// A title without its featured-artist notes.
pub fn strip_features(title: &str) -> (r: String)
    ensures
        r@ == without_features(title@),
{
    regex_replace_all(FEATURE_PATTERN, title, "")
}

/// A query with brackets and commas blanked out.
pub open spec fn without_brackets(query: Seq<char>) -> Seq<char> {
    let s = replaced(query, "("@, " "@);
    let s = replaced(s, ")"@, " "@);
    let s = replaced(s, "["@, " "@);
    let s = replaced(s, "]"@, " "@);
    replaced(s, ","@, " "@)
}

/// A query with the short featured-artist words taken out.
pub open spec fn without_feature_words(query: Seq<char>) -> Seq<char> {
    let s = replaced(query, "Ft."@, ""@);
    let s = replaced(s, "ft."@, ""@);
    let s = replaced(s, " Ft "@, " "@);
    let s = replaced(s, " ft "@, " "@);
    let s = replaced(s, " feat. "@, " "@);
    replaced(s, " feat "@, " "@)
}

/// A query with brackets and commas blanked out, the short featured-artist words taken out,
/// pairs of spaces joined, and the ends trimmed.
pub open spec fn plain_query(query: Seq<char>) -> Seq<char> {
    trimmed(replaced(without_feature_words(without_brackets(query)), "  "@, " "@))
}

/// A query with brackets and commas blanked out, the short featured-artist words taken out,
/// pairs of spaces joined, and the ends trimmed.
pub fn simplify_query(query: &str) -> (r: String)
    ensures
        r@ == plain_query(query@),
{
    proof {
        reveal_strlit("(");
        reveal_strlit(")");
        reveal_strlit("[");
        reveal_strlit("]");
        reveal_strlit(",");
        reveal_strlit("Ft.");
        reveal_strlit("ft.");
        reveal_strlit(" Ft ");
        reveal_strlit(" ft ");
        reveal_strlit(" feat. ");
        reveal_strlit(" feat ");
        reveal_strlit("  ");
    }
    let s = replace(query, "(", " ");
    let s = replace(&s, ")", " ");
    let s = replace(&s, "[", " ");
    let s = replace(&s, "]", " ");
    let s = replace(&s, ",", " ");
    let s = replace(&s, "Ft.", "");
    let s = replace(&s, "ft.", "");
    let s = replace(&s, " Ft ", " ");
    let s = replace(&s, " ft ", " ");
    let s = replace(&s, " feat. ", " ");
    let s = replace(&s, " feat ", " ");
    let s = replace(&s, "  ", " ");
    trim(&s)
}

/// The text of a capture group; empty where there is no such group or it took no part.
pub open spec fn group_text(groups: Seq<Option<Seq<char>>>, n: int) -> Seq<char> {
    if 0 <= n < groups.len() && groups[n] is Some {
        groups[n]->0
    } else {
        Seq::empty()
    }
}

/// A title taken apart: the groups captured from it, or the whole of it and no mix name.
pub open spec fn title_parts(captured: Option<Seq<Option<Seq<char>>>>, title: Seq<char>) -> (
    Seq<char>,
    Seq<char>,
) {
    match captured {
        Some(groups) => (trimmed(group_text(groups, 1)), trimmed(group_text(groups, 2))),
        None => (trimmed(title), Seq::empty()),
    }
}

/// The title proper and the mix name of a title.
pub open spec fn title_and_mix(title: Seq<char>) -> (Seq<char>, Seq<char>) {
    title_parts(regex_captured(MIX_PATTERN@, title), title)
}

/// The text of a capture group, without the white space at its ends.
fn trimmed_group(groups: &Vec<Option<String>>, n: usize) -> (r: String)
    ensures
        r@ == trimmed(group_text(groups.deep_view(), n as int)),
{
    if n < groups.len() {
        if let Some(text) = &groups[n] {
            return trim(text);
        }
    }
    String::new()
}

/// A title taken apart, given the groups captured from it.
pub fn split_captured(captured: &Option<Vec<Option<String>>>, title: &str) -> (r: (String, String))
    ensures
        (r.0@, r.1@) == title_parts(captured.deep_view(), title@),
{
    match captured {
        Some(groups) => (trimmed_group(groups, 1), trimmed_group(groups, 2)),
        None => (trim(title), String::new()),
    }
}

/// The title proper and the mix name of a title.
pub fn split_title(title: &str) -> (r: (String, String))
    ensures
        (r.0@, r.1@) == title_and_mix(title@),
{
    split_captured(&regex_captures(MIX_PATTERN, title), title)
}

/// Taking out the short featured-artist words and joining spaces brings in no bracket or comma.
proof fn lemma_feature_words_bring_nothing(s: Seq<char>, c: char)
    requires
        !s.contains(c),
        c != ' ',
    ensures
        !replaced(without_feature_words(s), "  "@, " "@).contains(c),
{
    reveal_strlit("");
    reveal_strlit(" ");
    assert(!""@.contains(c) && !" "@.contains(c));
    let s1 = replaced(s, "Ft."@, ""@);
    let s2 = replaced(s1, "ft."@, ""@);
    let s3 = replaced(s2, " Ft "@, " "@);
    let s4 = replaced(s3, " ft "@, " "@);
    let s5 = replaced(s4, " feat. "@, " "@);
    let s6 = replaced(s5, " feat "@, " "@);
    law_replaced_brings_no_character(s, "Ft."@, ""@, c);
    law_replaced_brings_no_character(s1, "ft."@, ""@, c);
    law_replaced_brings_no_character(s2, " Ft "@, " "@, c);
    law_replaced_brings_no_character(s3, " ft "@, " "@, c);
    law_replaced_brings_no_character(s4, " feat. "@, " "@, c);
    law_replaced_brings_no_character(s5, " feat "@, " "@, c);
    law_replaced_brings_no_character(s6, "  "@, " "@, c);
}

/// A query with brackets and commas blanked out has none.
proof fn lemma_without_brackets(query: Seq<char>)
    ensures
        forall|c: char|
            c == '(' || c == ')' || c == '[' || c == ']' || c == ',' ==> !(
            #[trigger] without_brackets(query).contains(c)),
{
    reveal_strlit(" ");
    reveal_strlit("(");
    reveal_strlit(")");
    reveal_strlit("[");
    reveal_strlit("]");
    reveal_strlit(",");
    assert("("@ =~= seq!['(']);
    assert(")"@ =~= seq![')']);
    assert("["@ =~= seq!['[']);
    assert("]"@ =~= seq![']']);
    assert(","@ =~= seq![',']);
    let s1 = replaced(query, "("@, " "@);
    let s2 = replaced(s1, ")"@, " "@);
    let s3 = replaced(s2, "["@, " "@);
    let s4 = replaced(s3, "]"@, " "@);
    law_replaced_character_is_gone(query, '(', " "@);
    law_replaced_character_is_gone(s1, ')', " "@);
    law_replaced_character_is_gone(s2, '[', " "@);
    law_replaced_character_is_gone(s3, ']', " "@);
    law_replaced_character_is_gone(s4, ',', " "@);
    law_replaced_brings_no_character(s1, ")"@, " "@, '(');
    law_replaced_brings_no_character(s2, "["@, " "@, '(');
    law_replaced_brings_no_character(s3, "]"@, " "@, '(');
    law_replaced_brings_no_character(s4, ","@, " "@, '(');
    law_replaced_brings_no_character(s2, "["@, " "@, ')');
    law_replaced_brings_no_character(s3, "]"@, " "@, ')');
    law_replaced_brings_no_character(s4, ","@, " "@, ')');
    law_replaced_brings_no_character(s3, "]"@, " "@, '[');
    law_replaced_brings_no_character(s4, ","@, " "@, '[');
    law_replaced_brings_no_character(s4, ","@, " "@, ']');
}

/// A plain query has no bracket and no comma, and neither begins nor ends with white space.
pub proof fn law_plain_query_is_plain(query: Seq<char>)
    ensures
        forall|c: char|
            c == '(' || c == ')' || c == '[' || c == ']' || c == ',' ==> !(#[trigger] plain_query(
                query,
            ).contains(c)),
        plain_query(query).len() > 0 ==> {
            &&& !is_space(plain_query(query)[0])
            &&& !is_space(plain_query(query).last())
        },
{
    lemma_without_brackets(query);
    let s = without_brackets(query);
    let joined = replaced(without_feature_words(s), "  "@, " "@);
    law_trimmed(joined);
    assert forall|c: char|
        c == '(' || c == ')' || c == '[' || c == ']' || c == ',' implies !(#[trigger] plain_query(
        query,
    ).contains(c)) by {
        assert(!s.contains(c));
        lemma_feature_words_bring_nothing(s, c);
    }
}

/// A query with nothing to take out of it stays as it is.
pub proof fn law_plain_query_stays(query: Seq<char>)
    requires
        !occurs(query, "("@),
        !occurs(query, ")"@),
        !occurs(query, "["@),
        !occurs(query, "]"@),
        !occurs(query, ","@),
        !occurs(query, "Ft."@),
        !occurs(query, "ft."@),
        !occurs(query, " Ft "@),
        !occurs(query, " ft "@),
        !occurs(query, " feat. "@),
        !occurs(query, " feat "@),
        !occurs(query, "  "@),
        trimmed(query) == query,
    ensures
        plain_query(query) == query,
{
    law_replaced_without_occurrence(query, "("@, " "@);
    law_replaced_without_occurrence(query, ")"@, " "@);
    law_replaced_without_occurrence(query, "["@, " "@);
    law_replaced_without_occurrence(query, "]"@, " "@);
    law_replaced_without_occurrence(query, ","@, " "@);
    law_replaced_without_occurrence(query, "Ft."@, ""@);
    law_replaced_without_occurrence(query, "ft."@, ""@);
    law_replaced_without_occurrence(query, " Ft "@, " "@);
    law_replaced_without_occurrence(query, " ft "@, " "@);
    law_replaced_without_occurrence(query, " feat. "@, " "@);
    law_replaced_without_occurrence(query, " feat "@, " "@);
    law_replaced_without_occurrence(query, "  "@, " "@);
}

/// Both parts of a title are without white space at their ends.
pub proof fn law_title_parts_are_trimmed(
    captured: Option<Seq<Option<Seq<char>>>>,
    title: Seq<char>,
)
    ensures
        ({
            let (name, mix) = title_parts(captured, title);
            trimmed(name) == name && trimmed(mix) == mix
        }),
{
    match captured {
        Some(groups) => {
            law_trimmed(group_text(groups, 1));
            law_trimmed(group_text(groups, 2));
        },
        None => {
            law_trimmed(title);
        },
    }
}

/// The text of a query with a space for each bracket and comma.
proof fn lemma_without_brackets_is(s: Seq<char>)
    ensures
        without_brackets(s).len() == s.len(),
        forall|i: int|
            0 <= i < s.len() ==> #[trigger] without_brackets(s)[i] == (if s[i] == '(' || s[i] == ')'
                || s[i] == '[' || s[i] == ']' || s[i] == ',' {
                ' '
            } else {
                s[i]
            }),
{
    reveal_strlit(" ");
    reveal_strlit("(");
    reveal_strlit(")");
    reveal_strlit("[");
    reveal_strlit("]");
    reveal_strlit(",");
    assert(" "@ =~= seq![' ']);
    assert("("@ =~= seq!['(']);
    assert(")"@ =~= seq![')']);
    assert("["@ =~= seq!['[']);
    assert("]"@ =~= seq![']']);
    assert(","@ =~= seq![',']);
    let s1 = replaced(s, "("@, " "@);
    let s2 = replaced(s1, ")"@, " "@);
    let s3 = replaced(s2, "["@, " "@);
    let s4 = replaced(s3, "]"@, " "@);
    let s5 = replaced(s4, ","@, " "@);
    law_replaced_character(s, '(', ' ');
    law_replaced_character(s1, ')', ' ');
    law_replaced_character(s2, '[', ' ');
    law_replaced_character(s3, ']', ' ');
    law_replaced_character(s4, ',', ' ');
    assert forall|i: int| 0 <= i < s.len() implies #[trigger] s5[i] == (if s[i] == '(' || s[i]
        == ')' || s[i] == '[' || s[i] == ']' || s[i] == ',' {
        ' '
    } else {
        s[i]
    }) by {
        assert(s1[i] == s1[i] && s2[i] == s2[i] && s3[i] == s3[i] && s4[i] == s4[i]);
    }
}

/// A bracket or a comma in a query is as good as a space, wherever it stands: what it parts stays
/// parted.
pub proof fn law_bracket_is_a_space(x: Seq<char>, c: char, y: Seq<char>)
    requires
        c == '(' || c == ')' || c == '[' || c == ']' || c == ',',
    ensures
        plain_query(x + seq![c] + y) == plain_query(x + seq![' '] + y),
{
    lemma_without_brackets_is(x + seq![c] + y);
    lemma_without_brackets_is(x + seq![' '] + y);
    assert(without_brackets(x + seq![c] + y) =~= without_brackets(x + seq![' '] + y));
}

/// A word of a query with nothing to take out of it.
pub open spec fn is_plain_word(w: Seq<char>) -> bool {
    &&& w.len() > 0
    &&& is_unbroken(w)
    &&& !w.contains('(') && !w.contains(')') && !w.contains('[') && !w.contains(']')
    &&& !w.contains(',')
    &&& !occurs(w, "Ft."@) && !occurs(w, "ft."@)
}

/// Where a pattern stands, its characters stand.
proof fn lemma_occurs_chars(s: Seq<char>, pat: Seq<char>, i: int)
    requires
        occurs_at(s, pat, i),
    ensures
        forall|j: int| 0 <= j < pat.len() ==> s[i + j] == #[trigger] pat[j],
{
    assert forall|j: int| 0 <= j < pat.len() implies s[i + j] == #[trigger] pat[j] by {
        assert(s.subrange(i, i + pat.len())[j] == pat[j]);
    }
}

/// A pattern between spaces stands in two joined words only within what joins them.
proof fn lemma_spaced_pattern(a: Seq<char>, mid: Seq<char>, b: Seq<char>, pat: Seq<char>, i: int)
    requires
        is_plain_word(a),
        is_plain_word(b),
        pat.len() >= 2,
        pat[0] == ' ',
        pat.last() == ' ',
        occurs_at(a + (mid + b), pat, i),
    ensures
        occurs_at(mid, pat, i - a.len()),
{
    let s = a + (mid + b);
    lemma_occurs_chars(s, pat, i);
    let e = i + pat.len() - 1;
    assert(s[i + 0] == pat[0]);
    assert(s[e] == pat[pat.len() - 1]);
    assert(is_space(' '));
    if i < a.len() {
        assert(!is_space(a[i]));
    }
    if e >= a.len() + mid.len() {
        assert(!is_space(b[e - a.len() - mid.len()]));
    }
    assert(mid.subrange(i - a.len(), i - a.len() + pat.len()) =~= s.subrange(i, i + pat.len()));
}

/// A pattern without white space stands in two words joined by white space only within one of
/// them or within what joins them.
proof fn lemma_unspaced_pattern(
    a: Seq<char>,
    mid: Seq<char>,
    b: Seq<char>,
    pat: Seq<char>,
    i: int,
)
    requires
        !occurs(a, pat),
        !occurs(b, pat),
        pat.len() >= 1,
        is_unbroken(pat),
        mid.len() > 0,
        mid[0] == ' ',
        mid.last() == ' ',
        occurs_at(a + (mid + b), pat, i),
    ensures
        occurs_at(mid, pat, i - a.len()),
{
    let s = a + (mid + b);
    lemma_occurs_chars(s, pat, i);
    let n = a.len() as int;
    let e = n + mid.len() - 1;
    assert(is_space(' '));
    assert(s[n] == ' ');
    assert(s[e] == ' ');
    if i <= n < i + pat.len() {
        assert(s[i + (n - i)] == pat[n - i]);
        assert(!is_space(pat[n - i]));
    }
    if i <= e < i + pat.len() {
        assert(s[i + (e - i)] == pat[e - i]);
        assert(!is_space(pat[e - i]));
    }
    if i + pat.len() <= n {
        assert(a.subrange(i, i + pat.len()) =~= s.subrange(i, i + pat.len()));
        assert(occurs_at(a, pat, i));
    }
    if i > e {
        assert(b.subrange(i - e - 1, i - e - 1 + pat.len()) =~= s.subrange(i, i + pat.len()));
        assert(occurs_at(b, pat, i - e - 1));
    }
    assert(mid.subrange(i - n, i - n + pat.len()) =~= s.subrange(i, i + pat.len()));
}

/// A pattern that does not stand in what joins two words is not replaced in the whole.
proof fn lemma_pattern_passes(
    a: Seq<char>,
    mid: Seq<char>,
    b: Seq<char>,
    pat: Seq<char>,
    to: Seq<char>,
)
    requires
        is_plain_word(a),
        is_plain_word(b),
        mid.len() > 0,
        mid[0] == ' ',
        mid.last() == ' ',
        !occurs(mid, pat),
        pat.len() >= 2,
        (pat[0] == ' ' && pat.last() == ' ') || pat == "Ft."@ || pat == "ft."@,
    ensures
        replaced(a + (mid + b), pat, to) == a + (mid + b),
{
    let s = a + (mid + b);
    reveal_strlit("Ft.");
    reveal_strlit("ft.");
    if occurs(s, pat) {
        let i = choose|i: int| occurs_at(s, pat, i);
        if pat[0] == ' ' {
            lemma_spaced_pattern(a, mid, b, pat, i);
        } else {
            lemma_unspaced_pattern(a, mid, b, pat, i);
        }
        assert(occurs(mid, pat));
    }
    law_replaced_without_occurrence(s, pat, to);
}

/// A featured-artist word between two words is replaced by a space.
proof fn lemma_pattern_replaced(a: Seq<char>, pat: Seq<char>, b: Seq<char>)
    requires
        is_plain_word(a),
        is_plain_word(b),
        pat.len() >= 2,
        pat[0] == ' ',
        pat.last() == ' ',
    ensures
        replaced(a + (pat + b), pat, " "@) == a + (" "@ + b),
{
    let s = a + (pat + b);
    assert forall|i: int| 0 <= i < a.len() implies !#[trigger] occurs_at(s, pat, i) by {
        if occurs_at(s, pat, i) {
            lemma_spaced_pattern(a, pat, b, pat, i);
        }
    }
    law_replaced_first(a, pat, b, " "@);
    if occurs(b, pat) {
        let i = choose|i: int| occurs_at(b, pat, i);
        lemma_occurs_chars(b, pat, i);
        assert(b[i + 0] == pat[0]);
        assert(is_space(' '));
        assert(!is_space(b[i]));
    }
    law_replaced_without_occurrence(b, pat, " "@);
}

/// A featured-artist word with a dot between two words is taken out.
proof fn lemma_dotted_replaced(a: Seq<char>, pat: Seq<char>, b: Seq<char>)
    requires
        is_plain_word(a),
        is_plain_word(b),
        pat == "Ft."@ || pat == "ft."@,
    ensures
        replaced(a + ((" "@ + pat + " "@) + b), pat, ""@) == a + ("  "@ + b),
{
    reveal_strlit("Ft.");
    reveal_strlit("ft.");
    reveal_strlit(" ");
    reveal_strlit("  ");
    reveal_strlit("");
    let mid = " "@ + pat + " "@;
    let s = a + (mid + b);
    let front = a + " "@;
    let back = " "@ + b;
    assert(s =~= front + (pat + back));
    assert forall|i: int| 0 <= i < front.len() implies !#[trigger] occurs_at(
        front + (pat + back),
        pat,
        i,
    ) by {
        if occurs_at(s, pat, i) {
            lemma_unspaced_pattern(a, mid, b, pat, i);
            lemma_occurs_chars(mid, pat, i - a.len());
            assert(mid[i - a.len() + 0] == pat[0]);
        }
    }
    law_replaced_first(front, pat, back, ""@);
    if occurs(back, pat) {
        let i = choose|i: int| occurs_at(back, pat, i);
        lemma_occurs_chars(back, pat, i);
        assert(back[i + 0] == pat[0]);
        assert(i > 0);
        assert(back.subrange(i, i + pat.len()) =~= b.subrange(i - 1, i - 1 + pat.len()));
        assert(occurs_at(b, pat, i - 1));
    }
    law_replaced_without_occurrence(back, pat, ""@);
    assert(front + (""@ + back) =~= a + ("  "@ + b));
}

/// Two words joined by one space are a query as it should be.
proof fn lemma_two_words_stay(a: Seq<char>, b: Seq<char>)
    requires
        is_plain_word(a),
        is_plain_word(b),
    ensures
        without_brackets(a + (" "@ + b)) == a + (" "@ + b),
        trimmed(a + (" "@ + b)) == a + (" "@ + b),
{
    reveal_strlit(" ");
    let t = a + (" "@ + b);
    lemma_brackets_pass(a, " "@, b);
    assert(!is_space(a[0]));
    assert(!is_space(b[b.len() - 1]));
    assert(t[0] == a[0] && t.last() == b.last());
    law_trimmed_is_the_middle(Seq::empty(), t, Seq::empty());
    assert(Seq::empty() + t + Seq::empty() =~= t);
}

/// Where there is no bracket and no comma, none is blanked out.
proof fn lemma_brackets_pass(a: Seq<char>, mid: Seq<char>, b: Seq<char>)
    requires
        is_plain_word(a),
        is_plain_word(b),
        forall|i: int|
            0 <= i < mid.len() ==> (#[trigger] mid[i]) != '(' && mid[i] != ')' && mid[i] != '['
                && mid[i] != ']' && mid[i] != ',',
    ensures
        without_brackets(a + (mid + b)) == a + (mid + b),
{
    let s = a + (mid + b);
    lemma_without_brackets_is(s);
    assert forall|i: int| 0 <= i < s.len() implies without_brackets(s)[i] == s[i] by {
        if i < a.len() {
            assert(a.contains(a[i]));
        } else if i < a.len() + mid.len() {
            assert(s[i] == mid[i - a.len()]);
        } else {
            assert(b.contains(b[i - a.len() - mid.len()]));
        }
    }
    assert(without_brackets(s) =~= s);
}

/// A short text does not have another in it if it differs from it wherever that would fit.
proof fn lemma_absent(mid: Seq<char>, pat: Seq<char>)
    requires
        pat.len() >= 2,
        mid.len() <= 7,
        forall|k: int|
            0 <= k && k + pat.len() <= mid.len() ==> {
                ||| #[trigger] mid[k] != pat[0]
                ||| mid[k + 1] != pat[1]
                ||| (pat.len() > 2 && mid[k + 2] != pat[2])
                ||| (pat.len() > 5 && mid[k + 5] != pat[5])
            },
    ensures
        !occurs(mid, pat),
{
    if occurs(mid, pat) {
        let k = choose|k: int| occurs_at(mid, pat, k);
        lemma_occurs_chars(mid, pat, k);
        assert(mid[k + 0] == pat[0] && mid[k + 1] == pat[1]);
        if pat.len() > 2 {
            assert(mid[k + 2] == pat[2]);
        }
        if pat.len() > 5 {
            assert(mid[k + 5] == pat[5]);
        }
    }
}

/// Which featured-artist words stand in which.
proof fn lemma_patterns_apart()
    ensures
        ({
            let p1 = "Ft."@;
            let p2 = "ft."@;
            let p3 = " Ft "@;
            let p4 = " ft "@;
            let p5 = " feat. "@;
            let p6 = " feat "@;
            let two = "  "@;
            let one = " "@;
            &&& !occurs(one, p1) && !occurs(one, p2) && !occurs(one, p3) && !occurs(one, p4)
            &&& !occurs(one, p5) && !occurs(one, p6) && !occurs(one, two)
            &&& !occurs(two, p1) && !occurs(two, p2) && !occurs(two, p3) && !occurs(two, p4)
            &&& !occurs(two, p5) && !occurs(two, p6)
            &&& !occurs(p3, p1) && !occurs(p3, p2)
            &&& !occurs(p4, p1) && !occurs(p4, p2) && !occurs(p4, p3)
            &&& !occurs(p5, p1) && !occurs(p5, p2) && !occurs(p5, p3) && !occurs(p5, p4)
            &&& !occurs(p6, p1) && !occurs(p6, p2) && !occurs(p6, p3) && !occurs(p6, p4)
            &&& !occurs(p6, p5)
            &&& !occurs(one + p2 + one, p1)
        }),
{
    reveal_strlit("Ft.");
    reveal_strlit("ft.");
    reveal_strlit(" Ft ");
    reveal_strlit(" ft ");
    reveal_strlit(" feat. ");
    reveal_strlit(" feat ");
    reveal_strlit("  ");
    reveal_strlit(" ");
    let p1 = "Ft."@;
    let p2 = "ft."@;
    let p3 = " Ft "@;
    let p4 = " ft "@;
    let p5 = " feat. "@;
    let p6 = " feat "@;
    let one = " "@;
    let two = "  "@;
    assert(p1 =~= seq!['F', 't', '.']);
    assert(p2 =~= seq!['f', 't', '.']);
    assert(p3 =~= seq![' ', 'F', 't', ' ']);
    assert(p4 =~= seq![' ', 'f', 't', ' ']);
    assert(p5 =~= seq![' ', 'f', 'e', 'a', 't', '.', ' ']);
    assert(p6 =~= seq![' ', 'f', 'e', 'a', 't', ' ']);
    assert(two =~= seq![' ', ' ']);
    assert(one =~= seq![' ']);
    assert(one + p2 + one =~= seq![' ', 'f', 't', '.', ' ']);
    lemma_absent(one, p1);
    lemma_absent(one, p2);
    lemma_absent(one, p3);
    lemma_absent(one, p4);
    lemma_absent(one, p5);
    lemma_absent(one, p6);
    lemma_absent(one, two);
    lemma_absent(two, p1);
    lemma_absent(two, p2);
    lemma_absent(two, p3);
    lemma_absent(two, p4);
    lemma_absent(two, p5);
    lemma_absent(two, p6);
    lemma_absent(p3, p1);
    lemma_absent(p3, p2);
    lemma_absent(p4, p1);
    lemma_absent(p4, p2);
    lemma_absent(p4, p3);
    lemma_absent(p5, p1);
    lemma_absent(p5, p2);
    lemma_absent(p5, p3);
    lemma_absent(p5, p4);
    lemma_absent(p6, p1);
    lemma_absent(p6, p2);
    lemma_absent(p6, p3);
    lemma_absent(p6, p4);
    lemma_absent(p6, p5);
    lemma_absent(one + p2 + one, p1);
}

/// The end of the way of a query of two words.
proof fn lemma_query_ends(a: Seq<char>, b: Seq<char>)
    requires
        is_plain_word(a),
        is_plain_word(b),
    ensures
        ({
            let t = a + (" "@ + b);
            let wide = a + ("  "@ + b);
            &&& replaced(t, "Ft."@, ""@) == t && replaced(t, "ft."@, ""@) == t
            &&& replaced(t, " Ft "@, " "@) == t && replaced(t, " ft "@, " "@) == t
            &&& replaced(t, " feat. "@, " "@) == t && replaced(t, " feat "@, " "@) == t
            &&& replaced(t, "  "@, " "@) == t
            &&& replaced(wide, "Ft."@, ""@) == wide && replaced(wide, "ft."@, ""@) == wide
            &&& replaced(wide, " Ft "@, " "@) == wide && replaced(wide, " ft "@, " "@) == wide
            &&& replaced(wide, " feat. "@, " "@) == wide
            &&& replaced(wide, " feat "@, " "@) == wide
            &&& replaced(wide, "  "@, " "@) == t
        }),
{
    reveal_strlit("Ft.");
    reveal_strlit("ft.");
    reveal_strlit(" Ft ");
    reveal_strlit(" ft ");
    reveal_strlit(" feat. ");
    reveal_strlit(" feat ");
    reveal_strlit("  ");
    reveal_strlit(" ");
    lemma_patterns_apart();
    lemma_pattern_passes(a, " "@, b, "Ft."@, ""@);
    lemma_pattern_passes(a, " "@, b, "ft."@, ""@);
    lemma_pattern_passes(a, " "@, b, " Ft "@, " "@);
    lemma_pattern_passes(a, " "@, b, " ft "@, " "@);
    lemma_pattern_passes(a, " "@, b, " feat. "@, " "@);
    lemma_pattern_passes(a, " "@, b, " feat "@, " "@);
    lemma_pattern_passes(a, " "@, b, "  "@, " "@);
    lemma_pattern_passes(a, "  "@, b, "Ft."@, ""@);
    lemma_pattern_passes(a, "  "@, b, "ft."@, ""@);
    lemma_pattern_passes(a, "  "@, b, " Ft "@, " "@);
    lemma_pattern_passes(a, "  "@, b, " ft "@, " "@);
    lemma_pattern_passes(a, "  "@, b, " feat. "@, " "@);
    lemma_pattern_passes(a, "  "@, b, " feat "@, " "@);
    lemma_pattern_replaced(a, "  "@, b);
}

/// Clearing a query never joins words, and takes featured-artist words out from between others:
/// two words that a bracket, a comma, one or two spaces, or a featured-artist word parts are
/// parted by one space.
pub proof fn law_query_words_stay_parted(a: Seq<char>, b: Seq<char>)
    requires
        is_plain_word(a),
        is_plain_word(b),
    ensures
        plain_query(a + "("@ + b) == a + " "@ + b,
        plain_query(a + ")"@ + b) == a + " "@ + b,
        plain_query(a + "["@ + b) == a + " "@ + b,
        plain_query(a + "]"@ + b) == a + " "@ + b,
        plain_query(a + ","@ + b) == a + " "@ + b,
        plain_query(a + " "@ + b) == a + " "@ + b,
        plain_query(a + "  "@ + b) == a + " "@ + b,
        plain_query(a + " Ft "@ + b) == a + " "@ + b,
        plain_query(a + " ft "@ + b) == a + " "@ + b,
        plain_query(a + " feat "@ + b) == a + " "@ + b,
        plain_query(a + " feat. "@ + b) == a + " "@ + b,
        plain_query(a + " Ft. "@ + b) == a + " "@ + b,
        plain_query(a + " ft. "@ + b) == a + " "@ + b,
{
    reveal_strlit("(");
    reveal_strlit(")");
    reveal_strlit("[");
    reveal_strlit("]");
    reveal_strlit(",");
    reveal_strlit("Ft.");
    reveal_strlit("ft.");
    reveal_strlit(" Ft ");
    reveal_strlit(" ft ");
    reveal_strlit(" feat. ");
    reveal_strlit(" feat ");
    reveal_strlit(" Ft. ");
    reveal_strlit(" ft. ");
    reveal_strlit("  ");
    reveal_strlit(" ");
    assert("("@ =~= seq!['('] && ")"@ =~= seq![')'] && "["@ =~= seq!['['] && "]"@ =~= seq![']']);
    assert(","@ =~= seq![','] && " "@ =~= seq![' ']);
    let t = a + (" "@ + b);
    assert(a + " "@ + b =~= t);
    lemma_patterns_apart();
    lemma_query_ends(a, b);
    lemma_two_words_stay(a, b);
    law_bracket_is_a_space(a, '(', b);
    law_bracket_is_a_space(a, ')', b);
    law_bracket_is_a_space(a, '[', b);
    law_bracket_is_a_space(a, ']', b);
    law_bracket_is_a_space(a, ',', b);
    assert(plain_query(t) == t);
    lemma_brackets_pass(a, "  "@, b);
    assert(a + "  "@ + b =~= a + ("  "@ + b));
    assert(plain_query(a + "  "@ + b) == t);

    lemma_brackets_pass(a, " Ft "@, b);
    assert(a + " Ft "@ + b =~= a + (" Ft "@ + b));
    lemma_pattern_passes(a, " Ft "@, b, "Ft."@, ""@);
    lemma_pattern_passes(a, " Ft "@, b, "ft."@, ""@);
    lemma_pattern_replaced(a, " Ft "@, b);
    assert(plain_query(a + " Ft "@ + b) == t);

    lemma_brackets_pass(a, " ft "@, b);
    assert(a + " ft "@ + b =~= a + (" ft "@ + b));
    lemma_pattern_passes(a, " ft "@, b, "Ft."@, ""@);
    lemma_pattern_passes(a, " ft "@, b, "ft."@, ""@);
    lemma_pattern_passes(a, " ft "@, b, " Ft "@, " "@);
    lemma_pattern_replaced(a, " ft "@, b);
    assert(plain_query(a + " ft "@ + b) == t);

    lemma_brackets_pass(a, " feat. "@, b);
    assert(a + " feat. "@ + b =~= a + (" feat. "@ + b));
    lemma_pattern_passes(a, " feat. "@, b, "Ft."@, ""@);
    lemma_pattern_passes(a, " feat. "@, b, "ft."@, ""@);
    lemma_pattern_passes(a, " feat. "@, b, " Ft "@, " "@);
    lemma_pattern_passes(a, " feat. "@, b, " ft "@, " "@);
    lemma_pattern_replaced(a, " feat. "@, b);
    assert(plain_query(a + " feat. "@ + b) == t);

    lemma_brackets_pass(a, " feat "@, b);
    assert(a + " feat "@ + b =~= a + (" feat "@ + b));
    lemma_pattern_passes(a, " feat "@, b, "Ft."@, ""@);
    lemma_pattern_passes(a, " feat "@, b, "ft."@, ""@);
    lemma_pattern_passes(a, " feat "@, b, " Ft "@, " "@);
    lemma_pattern_passes(a, " feat "@, b, " ft "@, " "@);
    lemma_pattern_passes(a, " feat "@, b, " feat. "@, " "@);
    lemma_pattern_replaced(a, " feat "@, b);
    assert(plain_query(a + " feat "@ + b) == t);

    lemma_brackets_pass(a, " Ft. "@, b);
    assert(" Ft. "@ =~= " "@ + "Ft."@ + " "@);
    assert(a + " Ft. "@ + b =~= a + (" Ft. "@ + b));
    lemma_dotted_replaced(a, "Ft."@, b);
    assert(plain_query(a + " Ft. "@ + b) == t);

    lemma_brackets_pass(a, " ft. "@, b);
    assert(" ft. "@ =~= " "@ + "ft."@ + " "@);
    assert(a + " ft. "@ + b =~= a + (" ft. "@ + b));
    lemma_pattern_passes(a, " ft. "@, b, "Ft."@, ""@);
    lemma_dotted_replaced(a, "ft."@, b);
    assert(plain_query(a + " ft. "@ + b) == t);
}

/// A title without featured-artist notes is what is left when every match of the pattern of such
/// a note is replaced by nothing: white space, the word in any case with a dot or without,
/// white space, and everything up to the next round bracket.
pub proof fn law_features_are_replaced_by_nothing(title: Seq<char>)
    ensures
        without_features(title) == regex_replaced(
            r"(?i)\s+(?:ft|feat|featuring)\.?\s+[^()]+"@,
            title,
            Seq::empty(),
        ),
{
    reveal_strlit("");
    assert(""@ =~= Seq::<char>::empty());
}

/// A title is taken apart by the pattern of a title that ends in a bracketed mix name: what stands
/// before the bracket is the title proper and what stands in it the mix name, both without the
/// white space around them. A title of another form is all title.
pub proof fn law_title_is_taken_apart(
    title: Seq<char>,
    whole: Option<Seq<char>>,
    name: Seq<char>,
    mix: Seq<char>,
)
    ensures
        ({
            let captured = regex_captured(r"^(.*?)\s*(?:\(|\[)([^()\[\]]+)(?:\)|\])$"@, title);
            &&& captured is None ==> title_and_mix(title) == (trimmed(title), Seq::<char>::empty())
            &&& captured == Some(seq![whole, Some(name), Some(mix)]) ==> title_and_mix(title) == (
                trimmed(name),
                trimmed(mix),
            )
        }),
        title_parts(Some(seq![whole, Some(name), Some(mix)]), title) == (
            trimmed(name),
            trimmed(mix),
        ),
        title_parts(None, title) == (trimmed(title), Seq::<char>::empty()),
{
}

/// So many spaces.
pub open spec fn spaces(n: nat) -> Seq<char> {
    Seq::new(n, |i: int| ' ')
}

/// A run of spaces before a word is halved.
proof fn lemma_spaces_halved(n: nat, b: Seq<char>)
    requires
        is_plain_word(b),
    ensures
        replaced(spaces(n) + b, "  "@, " "@) == spaces(((n + 1) / 2) as nat) + b,
    decreases n,
{
    reveal_strlit("  ");
    reveal_strlit(" ");
    let s = spaces(n) + b;
    if n < 2 {
        if occurs(s, "  "@) {
            let i = choose|i: int| occurs_at(s, "  "@, i);
            lemma_occurs_chars(s, "  "@, i);
            assert(s[i + 1] == "  "@[1]);
            assert(is_space(' '));
            assert(!is_space(b[i + 1 - n]));
        }
        law_replaced_without_occurrence(s, "  "@, " "@);
    } else {
        assert(s.take(2) =~= "  "@);
        assert(s.skip(2) =~= spaces((n - 2) as nat) + b);
        lemma_spaces_halved((n - 2) as nat, b);
        assert(" "@ + (spaces(((n - 1) / 2) as nat) + b) =~= spaces(((n + 1) / 2) as nat) + b);
    }
}

/// A run of spaces between two words is halved, the odd one out being kept: it never vanishes.
pub proof fn law_query_spaces_are_halved(a: Seq<char>, n: nat, b: Seq<char>)
    requires
        is_plain_word(a),
        is_plain_word(b),
        n > 0,
    ensures
        plain_query(a + (spaces(n) + b)) == a + (spaces(((n + 1) / 2) as nat) + b),
{
    reveal_strlit("Ft.");
    reveal_strlit("ft.");
    reveal_strlit(" Ft ");
    reveal_strlit(" ft ");
    reveal_strlit(" feat. ");
    reveal_strlit(" feat ");
    reveal_strlit("  ");
    let mid = spaces(n);
    let s = a + (mid + b);
    lemma_brackets_pass(a, mid, b);
    lemma_not_in_spaces(n, "Ft."@);
    lemma_not_in_spaces(n, "ft."@);
    lemma_not_in_spaces(n, " Ft "@);
    lemma_not_in_spaces(n, " ft "@);
    lemma_not_in_spaces(n, " feat. "@);
    lemma_not_in_spaces(n, " feat "@);
    lemma_pattern_passes(a, mid, b, "Ft."@, ""@);
    lemma_pattern_passes(a, mid, b, "ft."@, ""@);
    lemma_pattern_passes(a, mid, b, " Ft "@, " "@);
    lemma_pattern_passes(a, mid, b, " ft "@, " "@);
    lemma_pattern_passes(a, mid, b, " feat. "@, " "@);
    lemma_pattern_passes(a, mid, b, " feat "@, " "@);
    assert(without_feature_words(without_brackets(s)) == s);
    assert forall|i: int| 0 <= i < a.len() implies !#[trigger] occurs_at(s, "  "@, i) by {
        if occurs_at(s, "  "@, i) {
            lemma_spaced_pattern(a, mid, b, "  "@, i);
        }
    }
    lemma_replaced_after(a, mid + b, "  "@, " "@);
    lemma_spaces_halved(n, b);
    let t = a + (spaces(((n + 1) / 2) as nat) + b);
    assert(!is_space(a[0]) && !is_space(b[b.len() - 1]));
    assert(t[0] == a[0] && t.last() == b.last());
    law_trimmed_is_the_middle(Seq::empty(), t, Seq::empty());
    assert(Seq::empty() + t + Seq::empty() =~= t);
}

/// A featured-artist word does not stand in a run of spaces.
proof fn lemma_not_in_spaces(n: nat, pat: Seq<char>)
    requires
        pat.len() > 1,
        pat[1] != ' ',
    ensures
        !occurs(spaces(n), pat),
{
    if occurs(spaces(n), pat) {
        let i = choose|i: int| occurs_at(spaces(n), pat, i);
        lemma_occurs_chars(spaces(n), pat, i);
        assert(spaces(n)[i + 1] == pat[1]);
    }
}

/// A part of a title that was not captured is empty.
pub proof fn law_uncaptured_part_is_empty(whole: Option<Seq<char>>, title: Seq<char>)
    ensures
        title_parts(Some(seq![whole, None, None]), title) == (
            Seq::<char>::empty(),
            Seq::<char>::empty(),
        ),
        title_parts(Some(seq![whole]), title) == (Seq::<char>::empty(), Seq::<char>::empty()),
{
}

} // verus!
