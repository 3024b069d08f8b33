//! Canonical show identifiers.
//!
//! A release category looks like `"<Show Title> - <resolution>"`. The part
//! before the last dash is turned into a slug: lower-cased, a fixed
//! punctuation set dropped, every run of other special characters replaced
//! by a single space, every run of spaces collapsed to a single dash, and
//! one leading or trailing dash stripped.

use vstd::prelude::*;
use vstd::string::StrSliceExecFns;

verus! {

/// Upper-case ASCII letters are mapped to lower case; everything else is kept.
pub open spec fn spec_lower_char(c: char) -> char {
    if c == 'A' {
        'a'
    } else if c == 'B' {
        'b'
    } else if c == 'C' {
        'c'
    } else if c == 'D' {
        'd'
    } else if c == 'E' {
        'e'
    } else if c == 'F' {
        'f'
    } else if c == 'G' {
        'g'
    } else if c == 'H' {
        'h'
    } else if c == 'I' {
        'i'
    } else if c == 'J' {
        'j'
    } else if c == 'K' {
        'k'
    } else if c == 'L' {
        'l'
    } else if c == 'M' {
        'm'
    } else if c == 'N' {
        'n'
    } else if c == 'O' {
        'o'
    } else if c == 'P' {
        'p'
    } else if c == 'Q' {
        'q'
    } else if c == 'R' {
        'r'
    } else if c == 'S' {
        's'
    } else if c == 'T' {
        't'
    } else if c == 'U' {
        'u'
    } else if c == 'V' {
        'v'
    } else if c == 'W' {
        'w'
    } else if c == 'X' {
        'x'
    } else if c == 'Y' {
        'y'
    } else if c == 'Z' {
        'z'
    } else {
        c
    }
}

fn lower_char(c: char) -> (r: char)
    ensures
        r == spec_lower_char(c),
{
    match c {
        'A' => 'a',
        'B' => 'b',
        'C' => 'c',
        'D' => 'd',
        'E' => 'e',
        'F' => 'f',
        'G' => 'g',
        'H' => 'h',
        'I' => 'i',
        'J' => 'j',
        'K' => 'k',
        'L' => 'l',
        'M' => 'm',
        'N' => 'n',
        'O' => 'o',
        'P' => 'p',
        'Q' => 'q',
        'R' => 'r',
        'S' => 's',
        'T' => 't',
        'U' => 'u',
        'V' => 'v',
        'W' => 'w',
        'X' => 'x',
        'Y' => 'y',
        'Z' => 'z',
        _ => c,
    }
}

/// Punctuation that is dropped outright before the slug is formed.
pub open spec fn is_skip_symbol(c: char) -> bool {
    c == ',' || c == '\'' || c == '(' || c == ')'
}

fn is_skip_symbol_exec(c: char) -> (r: bool)
    ensures
        r == is_skip_symbol(c),
{
    c == ',' || c == '\'' || c == '(' || c == ')'
}

/// Characters that survive the special-character pass: ASCII letters,
/// digits, underscore and the space that separates words.
pub open spec fn is_kept(c: char) -> bool {
    ('A' <= c && c <= 'Z') || ('a' <= c && c <= 'z') || ('0' <= c && c <= '9') || c == '_' || c
        == ' '
}

fn is_kept_exec(c: char) -> (r: bool)
    ensures
        r == is_kept(c),
{
    ('A' <= c && c <= 'Z') || ('a' <= c && c <= 'z') || ('0' <= c && c <= '9') || c == '_' || c
        == ' '
}

pub open spec fn lower_seq(s: Seq<char>) -> Seq<char>
    decreases s.len(),
{
    if s.len() == 0 {
        Seq::empty()
    } else {
        seq![spec_lower_char(s[0])] + lower_seq(s.drop_first())
    }
}

pub open spec fn drop_skip_symbols(s: Seq<char>) -> Seq<char>
    decreases s.len(),
{
    if s.len() == 0 {
        Seq::empty()
    } else if is_skip_symbol(s[0]) {
        drop_skip_symbols(s.drop_first())
    } else {
        seq![s[0]] + drop_skip_symbols(s.drop_first())
    }
}

/// Every maximal run of characters outside the kept set becomes one space;
/// the space is emitted at the end of the run.
pub open spec fn squash_runs(s: Seq<char>) -> Seq<char>
    decreases s.len(),
{
    if s.len() == 0 {
        Seq::empty()
    } else if is_kept(s[0]) {
        seq![s[0]] + squash_runs(s.drop_first())
    } else if s.len() >= 2 && !is_kept(s[1]) {
        squash_runs(s.drop_first())
    } else {
        seq![' '] + squash_runs(s.drop_first())
    }
}

/// Every maximal run of spaces becomes one dash, emitted at the end of the
/// run.
pub open spec fn dash_runs(s: Seq<char>) -> Seq<char>
    decreases s.len(),
{
    if s.len() == 0 {
        Seq::empty()
    } else if s[0] != ' ' {
        seq![s[0]] + dash_runs(s.drop_first())
    } else if s.len() >= 2 && s[1] == ' ' {
        dash_runs(s.drop_first())
    } else {
        seq!['-'] + dash_runs(s.drop_first())
    }
}

/// One leading and one trailing dash are removed, if present.
pub open spec fn strip_edge_dashes(s: Seq<char>) -> Seq<char> {
    let t = if s.len() > 0 && s[0] == '-' {
        s.drop_first()
    } else {
        s
    };
    if t.len() > 0 && t[t.len() - 1] == '-' {
        t.drop_last()
    } else {
        t
    }
}

/// The full slug pass applied to the part of the category before the last
/// dash.
pub open spec fn slugify(s: Seq<char>) -> Seq<char> {
    strip_edge_dashes(dash_runs(squash_runs(drop_skip_symbols(lower_seq(s)))))
}

/// Index of the last occurrence of `c` in `s`, or -1 when there is none.
pub open spec fn last_index_of(s: Seq<char>, c: char) -> int
    decreases s.len(),
{
    if s.len() == 0 {
        -1
    } else if s[s.len() - 1] == c {
        s.len() - 1
    } else {
        last_index_of(s.drop_last(), c)
    }
}

pub proof fn lemma_last_index_of(s: Seq<char>, c: char)
    ensures
        last_index_of(s, c) < 0 ==> forall|j: int| 0 <= j < s.len() ==> s[j] != c,
        last_index_of(s, c) >= 0 ==> 0 <= last_index_of(s, c) < s.len()
            && s[last_index_of(s, c)] == c
            && forall|j: int| last_index_of(s, c) < j < s.len() ==> s[j] != c,
    decreases s.len(),
{
    if s.len() > 0 && s[s.len() - 1] != c {
        let pre = s.drop_last();
        lemma_last_index_of(pre, c);
        if last_index_of(pre, c) < 0 {
            assert forall|j: int| 0 <= j < s.len() implies s[j] != c by {
                if j < s.len() - 1 {
                    assert(pre[j] == s[j]);
                    assert(pre[j] != c);
                }
            }
        } else {
            let k = last_index_of(pre, c);
            assert(s[k] == pre[k]);
            assert forall|j: int| k < j < s.len() implies s[j] != c by {
                if j < s.len() - 1 {
                    assert(pre[j] == s[j]);
                    assert(pre[j] != c);
                }
            }
        }
    }
}

/// The canonical show identifier of a release category: the slug of the
/// text before the last dash, or nothing when the category has no dash.
pub open spec fn spec_show_id(s: Seq<char>) -> Option<Seq<char>> {
    if last_index_of(s, '-') < 0 {
        None
    } else {
        Some(slugify(s.take(last_index_of(s, '-'))))
    }
}

/// Position of the last occurrence of `chr` in `text`, in characters.
pub fn get_last_occurrence_index(text: &str, chr: char) -> (r: Option<usize>)
    ensures
        r is Some <==> last_index_of(text@, chr) >= 0,
        r is Some ==> r->Some_0 == last_index_of(text@, chr),
{
    let n = text.unicode_len();
    let mut found: Option<usize> = None;
    let mut i: usize = 0;
    while i < n
        invariant
            i <= n,
            n == text@.len(),
            found is Some <==> last_index_of(text@.take(i as int), chr) >= 0,
            found is Some ==> found->Some_0 == last_index_of(text@.take(i as int), chr),
        decreases n - i,
    {
        let c = text.get_char(i);
        proof {
            let cur = text@.take(i + 1 as int);
            assert(cur.drop_last() =~= text@.take(i as int));
            assert(cur[cur.len() - 1] == text@[i as int]);
        }
        if c == chr {
            found = Some(i);
        }
        i += 1;
    }
    proof {
        assert(text@.take(n as int) =~= text@);
    }
    found
}

fn lower_chars(v: &Vec<char>) -> (out: Vec<char>)
    ensures
        out@ == lower_seq(v@),
{
    let mut out: Vec<char> = Vec::new();
    let n = v.len();
    let mut i: usize = 0;
    proof {
        assert(v@.skip(0) =~= v@);
    }
    while i < n
        invariant
            i <= n,
            n == v@.len(),
            lower_seq(v@) == out@ + lower_seq(v@.skip(i as int)),
        decreases n - i,
    {
        let ghost pre = out@;
        out.push(lower_char(v[i]));
        proof {
            let s = v@.skip(i as int);
            assert(s.drop_first() =~= v@.skip(i + 1));
            assert(pre + lower_seq(s) =~= out@ + lower_seq(v@.skip(i + 1)));
        }
        i += 1;
    }
    proof {
        assert(v@.skip(n as int) =~= Seq::<char>::empty());
        assert(out@ + Seq::<char>::empty() =~= out@);
    }
    out
}

fn drop_skip_symbols_chars(v: &Vec<char>) -> (out: Vec<char>)
    ensures
        out@ == drop_skip_symbols(v@),
{
    let mut out: Vec<char> = Vec::new();
    let n = v.len();
    let mut i: usize = 0;
    proof {
        assert(v@.skip(0) =~= v@);
    }
    while i < n
        invariant
            i <= n,
            n == v@.len(),
            drop_skip_symbols(v@) == out@ + drop_skip_symbols(v@.skip(i as int)),
        decreases n - i,
    {
        let ghost pre = out@;
        let c = v[i];
        proof {
            let s = v@.skip(i as int);
            assert(s.drop_first() =~= v@.skip(i + 1));
        }
        if !is_skip_symbol_exec(c) {
            out.push(c);
            proof {
                let s = v@.skip(i as int);
                assert(pre + drop_skip_symbols(s) =~= out@ + drop_skip_symbols(v@.skip(i + 1)));
            }
        }
        i += 1;
    }
    proof {
        assert(v@.skip(n as int) =~= Seq::<char>::empty());
        assert(out@ + Seq::<char>::empty() =~= out@);
    }
    out
}

fn squash_runs_chars(v: &Vec<char>) -> (out: Vec<char>)
    ensures
        out@ == squash_runs(v@),
{
    let mut out: Vec<char> = Vec::new();
    let n = v.len();
    let mut i: usize = 0;
    proof {
        assert(v@.skip(0) =~= v@);
    }
    while i < n
        invariant
            i <= n,
            n == v@.len(),
            squash_runs(v@) == out@ + squash_runs(v@.skip(i as int)),
        decreases n - i,
    {
        let ghost pre = out@;
        let c = v[i];
        proof {
            let s = v@.skip(i as int);
            assert(s.drop_first() =~= v@.skip(i + 1));
            if i + 1 < n {
                assert(s[1] == v@[i + 1]);
            }
        }
        if is_kept_exec(c) {
            out.push(c);
            proof {
                let s = v@.skip(i as int);
                assert(pre + squash_runs(s) =~= out@ + squash_runs(v@.skip(i + 1)));
            }
        } else if i + 1 < n && !is_kept_exec(v[i + 1]) {
            // inside a run: the single replacement space comes at its end
        } else {
            out.push(' ');
            proof {
                let s = v@.skip(i as int);
                assert(pre + squash_runs(s) =~= out@ + squash_runs(v@.skip(i + 1)));
            }
        }
        i += 1;
    }
    proof {
        assert(v@.skip(n as int) =~= Seq::<char>::empty());
        assert(out@ + Seq::<char>::empty() =~= out@);
    }
    out
}

fn dash_runs_chars(v: &Vec<char>) -> (out: Vec<char>)
    ensures
        out@ == dash_runs(v@),
{
    let mut out: Vec<char> = Vec::new();
    let n = v.len();
    let mut i: usize = 0;
    proof {
        assert(v@.skip(0) =~= v@);
    }
    while i < n
        invariant
            i <= n,
            n == v@.len(),
            dash_runs(v@) == out@ + dash_runs(v@.skip(i as int)),
        decreases n - i,
    {
        let ghost pre = out@;
        let c = v[i];
        proof {
            let s = v@.skip(i as int);
            assert(s.drop_first() =~= v@.skip(i + 1));
            if i + 1 < n {
                assert(s[1] == v@[i + 1]);
            }
        }
        if c != ' ' {
            out.push(c);
            proof {
                let s = v@.skip(i as int);
                assert(pre + dash_runs(s) =~= out@ + dash_runs(v@.skip(i + 1)));
            }
        } else if i + 1 < n && v[i + 1] == ' ' {
            // inside a run of spaces: the dash comes at its end
        } else {
            out.push('-');
            proof {
                let s = v@.skip(i as int);
                assert(pre + dash_runs(s) =~= out@ + dash_runs(v@.skip(i + 1)));
            }
        }
        i += 1;
    }
    proof {
        assert(v@.skip(n as int) =~= Seq::<char>::empty());
        assert(out@ + Seq::<char>::empty() =~= out@);
    }
    out
}

fn strip_edge_dashes_chars(v: Vec<char>) -> (out: Vec<char>)
    ensures
        out@ == strip_edge_dashes(v@),
{
    let mut v = v;
    let ghost orig = v@;
    if v.len() > 0 && v[0] == '-' {
        v.remove(0);
        proof {
            assert(v@ =~= orig.drop_first());
        }
    }
    let ghost mid = v@;
    if v.len() > 0 && v[v.len() - 1] == '-' {
        v.pop();
        proof {
            assert(v@ =~= mid.drop_last());
        }
    }
    v
}

/// Derives the canonical show identifier from a release category.
pub fn rss_category_to_show_id(rss_category: &str) -> (r: Option<String>)
    ensures
        r is Some <==> spec_show_id(rss_category@) is Some,
        r is Some ==> Some(r->Some_0@) == spec_show_id(rss_category@),
{
    let idx = match get_last_occurrence_index(rss_category, '-') {
        None => {
            return None;
        },
        Some(idx) => idx,
    };
    proof {
        lemma_last_index_of(rss_category@, '-');
    }
    let mut v: Vec<char> = Vec::new();
    let mut i: usize = 0;
    while i < idx
        invariant
            i <= idx,
            idx < rss_category@.len(),
            v@ =~= rss_category@.take(i as int),
        decreases idx - i,
    {
        v.push(rss_category.get_char(i));
        proof {
            assert(v@ =~= rss_category@.take(i + 1 as int));
        }
        i += 1;
    }
    let lowered = lower_chars(&v);
    let unpunctuated = drop_skip_symbols_chars(&lowered);
    let spaced = squash_runs_chars(&unpunctuated);
    let dashed = dash_runs_chars(&spaced);
    let stripped = strip_edge_dashes_chars(dashed);
    Some(crate::strutil::chars_to_string(&stripped))
}

/// A character that can stand in a finished slug: a lower-case ASCII
/// letter, a digit, an underscore or a dash.
pub open spec fn is_slug_output_char(c: char) -> bool {
    ('a' <= c && c <= 'z') || ('0' <= c && c <= '9') || c == '_' || c == '-'
}

pub open spec fn no_adjacent_dashes(s: Seq<char>) -> bool {
    forall|i: int| 0 <= i < s.len() - 1 ==> !(#[trigger] s[i] == '-' && s[i + 1] == '-')
}

/// A finished slug: only slug characters, no doubled dash, and no dash
/// at either end.
pub open spec fn is_canonical_slug(s: Seq<char>) -> bool {
    &&& forall|i: int| 0 <= i < s.len() ==> is_slug_output_char(#[trigger] s[i])
    &&& no_adjacent_dashes(s)
    &&& s.len() > 0 ==> s[0] != '-' && s[s.len() - 1] != '-'
}

/// Each dash replaced by a space; everything else kept.
pub open spec fn dashes_to_spaces(s: Seq<char>) -> Seq<char>
    decreases s.len(),
{
    if s.len() == 0 {
        Seq::empty()
    } else {
        seq![if s[0] == '-' { ' ' } else { s[0] }] + dashes_to_spaces(s.drop_first())
    }
}

proof fn lemma_lower_chars_of(s: Seq<char>)
    ensures
        lower_seq(s).len() == s.len(),
        forall|i: int| 0 <= i < s.len() ==> #[trigger] lower_seq(s)[i] == spec_lower_char(s[i]),
    decreases s.len(),
{
    if s.len() > 0 {
        let rest = s.drop_first();
        lemma_lower_chars_of(rest);
        assert forall|i: int| 0 <= i < s.len() implies #[trigger] lower_seq(s)[i]
            == spec_lower_char(s[i]) by {
            if i > 0 {
                assert(lower_seq(s)[i] == lower_seq(rest)[i - 1]);
                assert(lower_seq(rest)[i - 1] == spec_lower_char(rest[i - 1]));
                assert(rest[i - 1] == s[i]);
            }
        }
    }
}

proof fn lemma_drop_skip_chars(s: Seq<char>)
    ensures
        forall|i: int|
            0 <= i < drop_skip_symbols(s).len() ==> exists|j: int|
                0 <= j < s.len() && #[trigger] drop_skip_symbols(s)[i] == s[j],
        forall|i: int|
            0 <= i < drop_skip_symbols(s).len() ==> !is_skip_symbol(
                #[trigger] drop_skip_symbols(s)[i],
            ),
    decreases s.len(),
{
    if s.len() > 0 {
        let rest = s.drop_first();
        lemma_drop_skip_chars(rest);
        let d = drop_skip_symbols(s);
        let tail = drop_skip_symbols(rest);
        assert forall|i: int| 0 <= i < d.len() implies exists|j: int|
            0 <= j < s.len() && #[trigger] d[i] == s[j] by {
            if is_skip_symbol(s[0]) {
                let j = choose|j: int| 0 <= j < rest.len() && #[trigger] tail[i] == rest[j];
                assert(d[i] == s[j + 1]);
            } else {
                if i == 0 {
                    assert(d[0] == s[0]);
                } else {
                    assert(d[i] == tail[i - 1]);
                    let j = choose|j: int| 0 <= j < rest.len() && #[trigger] tail[i - 1] == rest[j];
                    assert(d[i] == s[j + 1]);
                }
            }
        }
        assert forall|i: int| 0 <= i < d.len() implies !is_skip_symbol(#[trigger] d[i]) by {
            if is_skip_symbol(s[0]) {
                assert(d[i] == tail[i]);
            } else if i > 0 {
                assert(d[i] == tail[i - 1]);
            }
        }
    }
}

proof fn lemma_squash_chars(s: Seq<char>)
    ensures
        forall|i: int|
            0 <= i < squash_runs(s).len() ==> is_kept(#[trigger] squash_runs(s)[i]) && (
            squash_runs(s)[i] == ' ' || exists|j: int| 0 <= j < s.len() && squash_runs(s)[i] == s[j]),
    decreases s.len(),
{
    if s.len() > 0 {
        let rest = s.drop_first();
        lemma_squash_chars(rest);
        let q = squash_runs(s);
        let tail = squash_runs(rest);
        assert forall|i: int| 0 <= i < q.len() implies is_kept(#[trigger] q[i]) && (q[i] == ' '
            || exists|j: int| 0 <= j < s.len() && q[i] == s[j]) by {
            if is_kept(s[0]) {
                if i == 0 {
                    assert(q[0] == s[0]);
                } else {
                    assert(q[i] == tail[i - 1]);
                    if tail[i - 1] != ' ' {
                        let j = choose|j: int| 0 <= j < rest.len() && tail[i - 1] == rest[j];
                        assert(q[i] == s[j + 1]);
                    }
                }
            } else if s.len() >= 2 && !is_kept(s[1]) {
                assert(q[i] == tail[i]);
                if tail[i] != ' ' {
                    let j = choose|j: int| 0 <= j < rest.len() && tail[i] == rest[j];
                    assert(q[i] == s[j + 1]);
                }
            } else {
                if i == 0 {
                    assert(q[0] == ' ');
                } else {
                    assert(q[i] == tail[i - 1]);
                    if tail[i - 1] != ' ' {
                        let j = choose|j: int| 0 <= j < rest.len() && tail[i - 1] == rest[j];
                        assert(q[i] == s[j + 1]);
                    }
                }
            }
        }
    }
}

proof fn lemma_dash_chars(s: Seq<char>)
    requires
        forall|i: int| 0 <= i < s.len() ==> is_kept(#[trigger] s[i]),
    ensures
        forall|i: int|
            0 <= i < dash_runs(s).len() ==> #[trigger] dash_runs(s)[i] != ' ' && (dash_runs(s)[i]
                == '-' || exists|j: int| 0 <= j < s.len() && dash_runs(s)[i] == s[j]),
    decreases s.len(),
{
    if s.len() > 0 {
        let rest = s.drop_first();
        assert(forall|i: int| 0 <= i < rest.len() ==> is_kept(#[trigger] rest[i]) == is_kept(
            s[i + 1],
        ) && rest[i] == s[i + 1]);
        lemma_dash_chars(rest);
        let q = dash_runs(s);
        let tail = dash_runs(rest);
        assert forall|i: int| 0 <= i < q.len() implies #[trigger] q[i] != ' ' && (q[i] == '-'
            || exists|j: int| 0 <= j < s.len() && q[i] == s[j]) by {
            if s[0] != ' ' {
                if i == 0 {
                    assert(q[0] == s[0]);
                } else {
                    assert(q[i] == tail[i - 1]);
                    if tail[i - 1] != '-' {
                        let j = choose|j: int| 0 <= j < rest.len() && tail[i - 1] == rest[j];
                        assert(q[i] == s[j + 1]);
                    }
                }
            } else if s.len() >= 2 && s[1] == ' ' {
                assert(q[i] == tail[i]);
                if tail[i] != '-' {
                    let j = choose|j: int| 0 <= j < rest.len() && tail[i] == rest[j];
                    assert(q[i] == s[j + 1]);
                }
            } else {
                if i == 0 {
                    assert(q[0] == '-');
                } else {
                    assert(q[i] == tail[i - 1]);
                    if tail[i - 1] != '-' {
                        let j = choose|j: int| 0 <= j < rest.len() && tail[i - 1] == rest[j];
                        assert(q[i] == s[j + 1]);
                    }
                }
            }
        }
    }
}

proof fn lemma_dash_no_adjacent(s: Seq<char>)
    requires
        forall|i: int| 0 <= i < s.len() ==> #[trigger] s[i] != '-',
    ensures
        no_adjacent_dashes(dash_runs(s)),
        dash_runs(s).len() > 0 && dash_runs(s)[0] == '-' ==> s.len() > 0 && s[0] == ' ',
    decreases s.len(),
{
    if s.len() > 0 {
        let rest = s.drop_first();
        assert(forall|i: int| 0 <= i < rest.len() ==> #[trigger] rest[i] == s[i + 1]);
        lemma_dash_no_adjacent(rest);
        let q = dash_runs(s);
        let tail = dash_runs(rest);
        if s[0] != ' ' {
            assert forall|i: int| 0 <= i < q.len() - 1 implies !(#[trigger] q[i] == '-' && q[i + 1]
                == '-') by {
                if i == 0 {
                    assert(q[0] == s[0] && s[0] != '-');
                } else {
                    assert(q[i] == tail[i - 1] && q[i + 1] == tail[i]);
                }
            }
        } else if s.len() >= 2 && s[1] == ' ' {
            assert(q == tail);
        } else {
            assert forall|i: int| 0 <= i < q.len() - 1 implies !(#[trigger] q[i] == '-' && q[i + 1]
                == '-') by {
                if i == 0 {
                    assert(q[1] == tail[0]);
                    if tail.len() > 0 && tail[0] == '-' {
                        assert(rest.len() > 0 && rest[0] == ' ');
                        assert(s[1] == ' ');
                        assert(false);
                    }
                } else {
                    assert(q[i] == tail[i - 1] && q[i + 1] == tail[i]);
                }
            }
        }
    }
}

proof fn lemma_strip_canonical(s: Seq<char>)
    requires
        forall|i: int| 0 <= i < s.len() ==> is_slug_output_char(#[trigger] s[i]) && s[i] != ' ',
        no_adjacent_dashes(s),
    ensures
        is_canonical_slug(strip_edge_dashes(s)),
{
    let t = if s.len() > 0 && s[0] == '-' {
        s.drop_first()
    } else {
        s
    };
    assert(forall|i: int| 0 <= i < t.len() ==> t.len() < s.len() ==> #[trigger] t[i] == s[i + 1]);
    let u = if t.len() > 0 && t[t.len() - 1] == '-' {
        t.drop_last()
    } else {
        t
    };
    assert(strip_edge_dashes(s) == u);
    if s.len() > 0 && s[0] == '-' {
        assert(forall|i: int| 0 <= i < t.len() ==> #[trigger] t[i] == s[i + 1]);
        if t.len() > 0 && t[0] == '-' {
            assert(s[0] == '-' && s[1] == '-');
            assert(false);
        }
    }
    assert(forall|i: int| 0 <= i < u.len() ==> #[trigger] u[i] == t[i]);
    if u.len() > 0 {
        assert(u[0] != '-');
        if u[u.len() - 1] == '-' {
            if t.len() > u.len() {
                assert(t[t.len() - 2] == '-' && t[t.len() - 1] == '-');
                assert(false);
            }
            assert(false);
        }
    }
}

/// Everything the slug pass produces is a finished slug.
pub proof fn lemma_slugify_canonical(s: Seq<char>)
    ensures
        is_canonical_slug(slugify(s)),
{
    let a = lower_seq(s);
    let b = drop_skip_symbols(a);
    let c = squash_runs(b);
    let d = dash_runs(c);
    lemma_lower_chars_of(s);
    assert(forall|i: int| 0 <= i < a.len() ==> !('A' <= #[trigger] a[i] && a[i] <= 'Z'));
    lemma_drop_skip_chars(a);
    assert(forall|i: int| 0 <= i < b.len() ==> !('A' <= #[trigger] b[i] && b[i] <= 'Z'));
    lemma_squash_chars(b);
    assert forall|i: int| 0 <= i < c.len() implies is_kept(#[trigger] c[i]) && !('A' <= c[i]
        && c[i] <= 'Z') && c[i] != '-' by {
        if c[i] != ' ' {
            let j = choose|j: int| 0 <= j < b.len() && c[i] == b[j];
        }
    }
    lemma_dash_chars(c);
    lemma_dash_no_adjacent(c);
    assert forall|i: int| 0 <= i < d.len() implies is_slug_output_char(#[trigger] d[i]) && d[i]
        != ' ' by {
        if d[i] != '-' {
            let j = choose|j: int| 0 <= j < c.len() && d[i] == c[j];
            assert(is_kept(c[j]) && !('A' <= c[j] && c[j] <= 'Z') && c[j] != ' ');
        }
    }
    lemma_strip_canonical(d);
}

proof fn lemma_lower_id(s: Seq<char>)
    requires
        forall|i: int| 0 <= i < s.len() ==> !('A' <= #[trigger] s[i] && s[i] <= 'Z'),
    ensures
        lower_seq(s) == s,
    decreases s.len(),
{
    if s.len() > 0 {
        let rest = s.drop_first();
        assert(forall|i: int| 0 <= i < rest.len() ==> #[trigger] rest[i] == s[i + 1]);
        lemma_lower_id(rest);
        assert(lower_seq(s) =~= seq![s[0]] + rest);
        assert(seq![s[0]] + rest =~= s);
    }
}

proof fn lemma_drop_skip_id(s: Seq<char>)
    requires
        forall|i: int| 0 <= i < s.len() ==> !is_skip_symbol(#[trigger] s[i]),
    ensures
        drop_skip_symbols(s) == s,
    decreases s.len(),
{
    if s.len() > 0 {
        let rest = s.drop_first();
        assert(forall|i: int| 0 <= i < rest.len() ==> #[trigger] rest[i] == s[i + 1]);
        lemma_drop_skip_id(rest);
        assert(drop_skip_symbols(s) =~= seq![s[0]] + rest);
        assert(seq![s[0]] + rest =~= s);
    }
}

proof fn lemma_squash_on_canonical(s: Seq<char>)
    requires
        forall|i: int| 0 <= i < s.len() ==> is_slug_output_char(#[trigger] s[i]),
        no_adjacent_dashes(s),
    ensures
        squash_runs(s) == dashes_to_spaces(s),
    decreases s.len(),
{
    if s.len() > 0 {
        let rest = s.drop_first();
        assert(forall|i: int| 0 <= i < rest.len() ==> #[trigger] rest[i] == s[i + 1]);
        lemma_squash_on_canonical(rest);
        if s[0] == '-' {
            assert(!is_kept(s[0]));
            if s.len() >= 2 {
                assert(s[1] != '-');
                assert(is_kept(s[1]));
            }
            assert(squash_runs(s) == seq![' '] + squash_runs(rest));
            assert(dashes_to_spaces(s) == seq![' '] + dashes_to_spaces(rest));
        } else {
            assert(is_kept(s[0]));
            assert(squash_runs(s) == seq![s[0]] + squash_runs(rest));
            assert(dashes_to_spaces(s) == seq![s[0]] + dashes_to_spaces(rest));
        }
    }
}

proof fn lemma_dash_undo(s: Seq<char>)
    requires
        forall|i: int| 0 <= i < s.len() ==> is_slug_output_char(#[trigger] s[i]),
        no_adjacent_dashes(s),
    ensures
        dash_runs(dashes_to_spaces(s)) == s,
    decreases s.len(),
{
    if s.len() > 0 {
        let rest = s.drop_first();
        assert(forall|i: int| 0 <= i < rest.len() ==> #[trigger] rest[i] == s[i + 1]);
        lemma_dash_undo(rest);
        let m = dashes_to_spaces(s);
        assert(m == seq![if s[0] == '-' { ' ' } else { s[0] }] + dashes_to_spaces(rest));
        assert(m.drop_first() =~= dashes_to_spaces(rest));
        if s[0] == '-' {
            assert(m[0] == ' ');
            if m.len() >= 2 {
                assert(m[1] == dashes_to_spaces(rest)[0]);
                assert(dashes_to_spaces(rest)[0] == (if rest[0] == '-' { ' ' } else { rest[0] }));
                assert(rest[0] != '-');
                assert(m[1] != ' ');
            }
            assert(dash_runs(m) == seq!['-'] + dash_runs(m.drop_first()));
            assert(seq!['-'] + rest =~= s);
        } else {
            assert(m[0] == s[0] && s[0] != ' ');
            assert(dash_runs(m) == seq![s[0]] + dash_runs(m.drop_first()));
            assert(seq![s[0]] + rest =~= s);
        }
    }
}

/// The slug pass changes nothing on a finished slug: running it twice is
/// the same as running it once.
pub proof fn lemma_slugify_idempotent(s: Seq<char>)
    ensures
        slugify(slugify(s)) == slugify(s),
{
    lemma_slugify_canonical(s);
    let t = slugify(s);
    lemma_lower_id(t);
    lemma_drop_skip_id(t);
    lemma_squash_on_canonical(t);
    lemma_dash_undo(t);
    assert(dash_runs(squash_runs(drop_skip_symbols(lower_seq(t)))) == t);
    if t.len() > 0 {
        assert(t[0] != '-' && t[t.len() - 1] != '-');
    }
    assert(strip_edge_dashes(t) == t);
}

} // verus!
