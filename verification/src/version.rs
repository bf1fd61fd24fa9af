//! Version extraction from a package manifest.
//!
//! The command line reports the version recorded in the package
//! manifest: the first line starting with `version`, read after its
//! last `=`, trimmed, with the quotes removed.

use vstd::prelude::*;

use crate::commands::{spec_starts_with, starts_with_str};
use crate::images::{first_occurrence, lemma_first_occurrence};
use crate::vecs::lemma_deep_view_push;

verus! {

/// Relies on `String::push`: appends the given character to the end of
/// the string.
pub assume_specification[ String::push ](s: &mut String, ch: char)
    ensures
        final(s)@ == old(s)@.push(ch),
;

/// Whitespace that trimming strips from line ends.
pub open spec fn is_space(c: char) -> bool {
    c == ' ' || c == '\t' || c == '\r'
}

/// `s` without leading whitespace.
pub open spec fn trim_front(s: Seq<char>) -> Seq<char>
    decreases s.len(),
{
    if s.len() > 0 && is_space(s[0]) {
        trim_front(s.drop_first())
    } else {
        s
    }
}

/// `s` without trailing whitespace.
pub open spec fn trim_back(s: Seq<char>) -> Seq<char>
    decreases s.len(),
{
    if s.len() > 0 && is_space(s.last()) {
        trim_back(s.drop_last())
    } else {
        s
    }
}

/// `s` without leading and trailing whitespace.
pub open spec fn trimmed(s: Seq<char>) -> Seq<char> {
    trim_back(trim_front(s))
}

/// What follows the last occurrence of `c` in `s` (all of `s` when `c`
/// does not occur).
pub open spec fn after_last(s: Seq<char>, c: char) -> Seq<char>
    decreases s.len(),
{
    if s.len() == 0 {
        s
    } else if s.drop_first().contains(c) {
        after_last(s.drop_first(), c)
    } else if s[0] == c {
        s.drop_first()
    } else {
        s
    }
}

/// `s` with every double quote removed.
pub open spec fn strip_quotes(s: Seq<char>) -> Seq<char> {
    s.filter(|ch: char| ch != '"')
}

/// `s` split at every occurrence of `c`.
pub open spec fn split_on(s: Seq<char>, c: char) -> Seq<Seq<char>>
    decreases s.len(),
{
    if s.len() == 0 {
        seq![Seq::<char>::empty()]
    } else {
        let rest = split_on(s.drop_first(), c);
        if s[0] == c {
            seq![Seq::<char>::empty()] + rest
        } else {
            seq![seq![s[0]] + rest[0]] + rest.drop_first()
        }
    }
}

/// Without the separator, splitting yields the whole sequence.
proof fn lemma_split_no_sep(s: Seq<char>, c: char)
    requires
        !s.contains(c),
    ensures
        split_on(s, c) == seq![s],
    decreases s.len(),
{
    if s.len() > 0 {
        assert(s[0] != c);
        let rest = s.drop_first();
        assert(!rest.contains(c)) by {
            if rest.contains(c) {
                let i = choose|i: int| 0 <= i < rest.len() && rest[i] == c;
                assert(s[i + 1] == c);
            }
        }
        lemma_split_no_sep(rest, c);
        assert(split_on(rest, c)[0] == rest);
        assert(seq![s[0]] + rest =~= s);
        assert(split_on(rest, c).drop_first() =~= Seq::<Seq<char>>::empty());
        assert(split_on(s, c) =~~= seq![s]);
    } else {
        assert(split_on(s, c) =~~= seq![s]);
    }
}

/// Splitting peels off everything before the first separator.
proof fn lemma_split_head(s: Seq<char>, c: char)
    requires
        s.contains(c),
    ensures
        split_on(s, c) == seq![s.take(first_occurrence(s, c))] + split_on(
            s.skip(first_occurrence(s, c) + 1),
            c,
        ),
    decreases s.len(),
{
    lemma_first_occurrence(s, c);
    let f = first_occurrence(s, c);
    if s[0] == c {
        assert(f == 0);
        assert(s.take(0) =~= Seq::<char>::empty());
        assert(s.skip(1) =~= s.drop_first());
        assert(split_on(s, c) =~= seq![s.take(0)] + split_on(s.skip(1), c));
    } else {
        let rest = s.drop_first();
        assert(rest.contains(c)) by {
            let i = choose|i: int| 0 <= i < s.len() && s[i] == c;
            assert(i > 0);
            assert(rest[i - 1] == c);
        }
        assert(first_occurrence(s, c) == 1 + first_occurrence(rest, c));
        lemma_split_head(rest, c);
        let g = first_occurrence(rest, c);
        assert(seq![s[0]] + rest.take(g) =~= s.take(f));
        assert(rest.skip(g + 1) =~= s.skip(f + 1));
        assert(split_on(rest, c)[0] == rest.take(g));
        assert(split_on(rest, c).drop_first() =~= split_on(s.skip(f + 1), c)) by {
            assert(split_on(rest, c) == seq![rest.take(g)] + split_on(rest.skip(g + 1), c));
        }
        assert(split_on(s, c) =~= seq![s.take(f)] + split_on(s.skip(f + 1), c));
    }
}

/// Dropping a known run of leading whitespace is what `trim_front`
/// does.
proof fn lemma_trim_front_skip(s: Seq<char>, a: int)
    requires
        0 <= a <= s.len(),
        forall|j: int| 0 <= j < a ==> is_space(#[trigger] s[j]),
        a < s.len() ==> !is_space(s[a]),
    ensures
        trim_front(s) == s.skip(a),
    decreases a,
{
    if a == 0 {
        assert(s.skip(0) =~= s);
    } else {
        assert(is_space(s[0]));
        let rest = s.drop_first();
        lemma_trim_front_skip(rest, a - 1);
        assert(rest.skip(a - 1) =~= s.skip(a));
    }
}

/// Dropping a known run of trailing whitespace is what `trim_back`
/// does.
proof fn lemma_trim_back_take(s: Seq<char>, b: int)
    requires
        0 <= b <= s.len(),
        forall|j: int| b <= j < s.len() ==> is_space(#[trigger] s[j]),
        b > 0 ==> !is_space(s[b - 1]),
    ensures
        trim_back(s) == s.take(b),
    decreases s.len() - b,
{
    if b == s.len() as int {
        if s.len() > 0 && is_space(s.last()) {
            assert(!is_space(s[b - 1]));
            assert(false);
        }
        assert(s.take(b) =~= s);
    } else {
        assert(is_space(s.last()));
        let head = s.drop_last();
        assert forall|j: int| b <= j < head.len() implies is_space(#[trigger] head[j]) by {
            assert(head[j] == s[j]);
        }
        lemma_trim_back_take(head, b);
        assert(head.take(b) =~= s.take(b));
    }
}

/// What follows a known last occurrence is what `after_last` yields.
proof fn lemma_after_last_at(s: Seq<char>, c: char, last: int)
    requires
        0 <= last < s.len(),
        s[last] == c,
        forall|j: int| last < j < s.len() ==> #[trigger] s[j] != c,
    ensures
        after_last(s, c) == s.skip(last + 1),
    decreases s.len(),
{
    let rest = s.drop_first();
    if last == 0 {
        assert(!rest.contains(c)) by {
            if rest.contains(c) {
                let i = choose|i: int| 0 <= i < rest.len() && rest[i] == c;
                assert(s[i + 1] == c);
            }
        }
        assert(s[0] == c);
        assert(after_last(s, c) == rest);
        assert(rest =~= s.skip(1));
    } else {
        assert(rest[last - 1] == c);
        assert(rest.contains(c));
        assert forall|j: int| last - 1 < j < rest.len() implies #[trigger] rest[j] != c by {
            assert(rest[j] == s[j + 1]);
        }
        lemma_after_last_at(rest, c, last - 1);
        assert(rest.skip(last) =~= s.skip(last + 1));
    }
}

/// Without the separator, `after_last` yields the whole sequence.
proof fn lemma_after_last_absent(s: Seq<char>, c: char)
    requires
        !s.contains(c),
    ensures
        after_last(s, c) == s,
    decreases s.len(),
{
    if s.len() > 0 {
        let rest = s.drop_first();
        assert(!rest.contains(c)) by {
            if rest.contains(c) {
                let i = choose|i: int| 0 <= i < rest.len() && rest[i] == c;
                assert(s[i + 1] == c);
            }
        }
        assert(s[0] != c);
    }
}

/// Splits a text into its lines.
fn split_lines(s: &str) -> (r: Vec<String>)
    ensures
        r.deep_view() == split_on(s@, '\n'),
{
    let n = s.unicode_len();
    let mut r: Vec<String> = Vec::new();
    let mut start: usize = 0;
    let mut i: usize = 0;
    proof {
        assert(s@.skip(0) =~= s@);
        assert(r.deep_view() =~= Seq::<Seq<char>>::empty());
        assert(split_on(s@, '\n') =~= r.deep_view() + split_on(s@.skip(0), '\n'));
    }
    while i < n
        invariant
            start <= i <= n,
            n == s@.len(),
            split_on(s@, '\n') =~= r.deep_view() + split_on(s@.skip(start as int), '\n'),
            forall|j: int| start <= j < i ==> #[trigger] s@[j] != '\n',
        decreases n - i,
    {
        if s.get_char(i) == '\n' {
            let line = s.substring_char(start, i).to_owned();
            let ghost r0 = r;
            let ghost gline = line;
            r.push(line);
            proof {
                lemma_deep_view_push(r0, r, gline);
                let tail = s@.skip(start as int);
                assert(tail[i - start] == s@[i as int]);
                assert(tail.contains('\n'));
                lemma_first_occurrence(tail, '\n');
                let f = first_occurrence(tail, '\n');
                assert forall|j: int| 0 <= j < i - start implies #[trigger] tail[j] != '\n' by {
                    assert(tail[j] == s@[start + j]);
                }
                if f < i - start {
                    assert(tail[f] == '\n');
                    assert(false);
                }
                if f > i - start {
                    assert(tail[i - start] != '\n');
                    assert(false);
                }
                lemma_split_head(tail, '\n');
                assert(tail.take(f) =~= s@.subrange(start as int, i as int));
                assert(tail.skip(f + 1) =~= s@.skip(i as int + 1));
                assert(gline@ == tail.take(f));
                assert(r.deep_view() =~= r0.deep_view() + seq![tail.take(f)]);
                assert(split_on(s@, '\n') =~= r.deep_view() + split_on(s@.skip(i as int + 1), '\n'));
            }
            start = i + 1;
        }
        i = i + 1;
    }
    let line = s.substring_char(start, n).to_owned();
    let ghost r0 = r;
    let ghost gline = line;
    r.push(line);
    proof {
        lemma_deep_view_push(r0, r, gline);
        let tail = s@.skip(start as int);
        assert(!tail.contains('\n')) by {
            if tail.contains('\n') {
                let j = choose|j: int| 0 <= j < tail.len() && tail[j] == '\n';
                assert(s@[start + j] == '\n');
            }
        }
        lemma_split_no_sep(tail, '\n');
        assert(gline@ =~= tail);
        assert(r.deep_view() =~= r0.deep_view() + seq![tail]);
        assert(r.deep_view() =~= split_on(s@, '\n'));
    }
    r
}

/// Reads a manifest line's value: after the last `=`, trimmed, quotes
/// removed.
fn extract_value(line: &str) -> (r: String)
    ensures
        r@ == strip_quotes(trimmed(after_last(line@, '='))),
{
    let n = line.unicode_len();
    // find what follows the last `=`
    let mut last_eq: usize = 0;
    let mut has_eq = false;
    let mut j: usize = 0;
    while j < n
        invariant
            j <= n,
            n == line@.len(),
            has_eq ==> last_eq < j && line@[last_eq as int] == '=' && (forall|k: int|
                last_eq < k < j ==> #[trigger] line@[k] != '='),
            !has_eq ==> forall|k: int| 0 <= k < j ==> #[trigger] line@[k] != '=',
        decreases n - j,
    {
        if line.get_char(j) == '=' {
            last_eq = j;
            has_eq = true;
        }
        j = j + 1;
    }
    let start: usize = if has_eq {
        proof {
            lemma_after_last_at(line@, '=', last_eq as int);
        }
        last_eq + 1
    } else {
        proof {
            assert(!line@.contains('=')) by {
                if line@.contains('=') {
                    let k = choose|k: int| 0 <= k < line@.len() && line@[k] == '=';
                    assert(false);
                }
            }
            lemma_after_last_absent(line@, '=');
            assert(line@.skip(0) =~= line@);
        }
        0
    };
    let ghost value = line@.skip(start as int);
    proof {
        assert(after_last(line@, '=') == value);
    }
    // trim whitespace off both ends
    let mut a: usize = start;
    while a < n && is_space_char(line.get_char(a))
        invariant
            start <= a <= n,
            n == line@.len(),
            forall|k: int| start <= k < a ==> is_space(#[trigger] line@[k]),
        decreases n - a,
    {
        a = a + 1;
    }
    let mut b: usize = n;
    while b > a && is_space_char(line.get_char(b - 1))
        invariant
            a <= b <= n,
            n == line@.len(),
            forall|k: int| b <= k < n ==> is_space(#[trigger] line@[k]),
        decreases b,
    {
        b = b - 1;
    }
    proof {
        assert forall|k: int| 0 <= k < a - start implies is_space(#[trigger] value[k]) by {
            assert(value[k] == line@[start + k]);
        }
        if a < n {
            assert(value[a - start] == line@[a as int]);
        }
        lemma_trim_front_skip(value, a as int - start as int);
        let tv = value.skip(a as int - start as int);
        assert(tv =~= line@.skip(a as int));
        assert forall|k: int| b - a <= k < tv.len() implies is_space(#[trigger] tv[k]) by {
            assert(tv[k] == line@[a + k]);
        }
        if b > a {
            assert(tv[b - a - 1] == line@[b as int - 1]);
        }
        lemma_trim_back_take(tv, b as int - a as int);
        assert(trimmed(value) == tv.take(b as int - a as int));
        assert(tv.take(b as int - a as int) =~= line@.subrange(a as int, b as int));
    }
    // drop every double quote
    let ghost core = line@.subrange(a as int, b as int);
    let mut r = String::new();
    let mut i: usize = a;
    while i < b
        invariant
            a <= i <= b <= n,
            n == line@.len(),
            core == line@.subrange(a as int, b as int),
            r@ == core.take(i as int - a as int).filter(|ch: char| ch != '"'),
        decreases b - i,
    {
        let ch = line.get_char(i);
        proof {
            reveal(Seq::filter);
            let w = i as int - a as int;
            assert(core.take(w + 1).drop_last() =~= core.take(w));
            assert(core.take(w + 1).last() == line@[i as int]);
        }
        if ch != '"' {
            r.push(ch);
        }
        i = i + 1;
    }
    proof {
        assert(core.take(b as int - a as int) =~= core);
        assert(r@ == strip_quotes(trimmed(after_last(line@, '='))));
    }
    r
}

/// Whether trimming strips this character.
fn is_space_char(c: char) -> (r: bool)
    ensures
        r == is_space(c),
{
    c == ' ' || c == '\t' || c == '\r'
}

/// Version reporting.
pub struct Version;

impl Version {
    /// Reads the version recorded in a package manifest: the value of
    /// the first line starting with `version`, taken after its last
    /// `=`, trimmed, with quotes removed; `None` when no such line
    /// exists.
    pub fn get(manifest: &str) -> (r: Option<String>)
        ensures
            r matches Some(v) ==> exists|i: int|
                {
                    &&& 0 <= i < split_on(manifest@, '\n').len()
                    &&& spec_starts_with(#[trigger] split_on(manifest@, '\n')[i], "version"@)
                    &&& (forall|j: int|
                        0 <= j < i ==> !spec_starts_with(
                            #[trigger] split_on(manifest@, '\n')[j],
                            "version"@,
                        ))
                    &&& v@ == strip_quotes(trimmed(after_last(split_on(manifest@, '\n')[i], '=')))
                },
            r is None ==> forall|i: int|
                0 <= i < split_on(manifest@, '\n').len() ==> !spec_starts_with(
                    #[trigger] split_on(manifest@, '\n')[i],
                    "version"@,
                ),
    {
        let lines = split_lines(manifest);
        let mut i: usize = 0;
        while i < lines.len()
            invariant
                i <= lines@.len(),
                lines.deep_view() == split_on(manifest@, '\n'),
                forall|j: int|
                    0 <= j < i ==> !spec_starts_with(#[trigger] lines.deep_view()[j], "version"@),
            decreases lines@.len() - i,
        {
            if starts_with_str(lines[i].as_str(), "version") {
                let value = extract_value(lines[i].as_str());
                proof {
                    assert(spec_starts_with(lines.deep_view()[i as int], "version"@));
                }
                return Some(value);
            }
            i = i + 1;
        }
        None
    }
}

} // verus!
