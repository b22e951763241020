//! Deriving the list of packages to act on from the text that a listing
//! command printed.
//!
//! The listing names one item per line: each line begins with the item's name,
//! followed by arbitrary text. The package list holds every name once, in the
//! order in which the names were first seen, without the names that are
//! excluded.

use vstd::prelude::*;

verus! {

/// `String::push` appends one character to the end of the string.
pub assume_specification[ String::push ](s: &mut String, ch: char)
    ensures
        final(s)@ == old(s)@.push(ch),
;

/// The characters that separate a name from what follows it: those with the
/// Unicode property `White_Space`.
pub open spec fn whitespace(c: char) -> bool {
    let n = c as u32;
    ||| 0x09 <= n <= 0x0D
    ||| n == 0x20
    ||| n == 0x85
    ||| n == 0xA0
    ||| n == 0x1680
    ||| 0x2000 <= n <= 0x200A
    ||| n == 0x2028
    ||| n == 0x2029
    ||| n == 0x202F
    ||| n == 0x205F
    ||| n == 0x3000
}

/// Where the run of non-whitespace characters that covers position `from`
/// ends: the first position at or after `from` that holds whitespace, or the
/// end of the text.
pub open spec fn token_end(text: Seq<char>, from: int) -> int
    decreases text.len() - from,
{
    if 0 <= from < text.len() && !whitespace(text[from]) {
        token_end(text, from + 1)
    } else {
        from
    }
}

/// Position `i` is the first of a line: the first of the text, or the one
/// after a line feed.
pub open spec fn starts_line(text: Seq<char>, i: int) -> bool {
    0 <= i < text.len() && (i == 0 || text[i - 1] == '\n')
}

/// A name begins at position `i`: the position is the first of its line and
/// holds no whitespace.
pub open spec fn starts_token(text: Seq<char>, i: int) -> bool {
    starts_line(text, i) && !whitespace(text[i])
}

/// The name that begins at position `i`.
pub open spec fn token_at(text: Seq<char>, i: int) -> Seq<char> {
    text.subrange(i, token_end(text, i))
}

/// The names that begin before position `n`, in the order of the text.
pub open spec fn tokens_before(text: Seq<char>, n: int) -> Seq<Seq<char>>
    decreases n,
{
    if n <= 0 {
        Seq::empty()
    } else if starts_token(text, n - 1) {
        tokens_before(text, n - 1).push(token_at(text, n - 1))
    } else {
        tokens_before(text, n - 1)
    }
}

/// The leading name of every line of `text` that has one, in the order of the
/// lines. A line that is empty or begins with whitespace has none.
pub open spec fn tokens_of(text: Seq<char>) -> Seq<Seq<char>> {
    tokens_before(text, text.len() as int)
}

/// The token at position `i` is kept: its name is not excluded and does not
/// occur earlier among the tokens.
pub open spec fn kept(tokens: Seq<Seq<char>>, excluded: Set<Seq<char>>, i: int) -> bool {
    &&& !excluded.contains(tokens[i])
    &&& forall|j: int| 0 <= j < i ==> tokens[j] != tokens[i]
}

/// The tokens that are kept, in their order: the first occurrence of every
/// name that is not excluded.
pub open spec fn package_list(tokens: Seq<Seq<char>>, excluded: Set<Seq<char>>) -> Seq<Seq<char>>
    decreases tokens.len(),
{
    if tokens.len() == 0 {
        Seq::empty()
    } else if kept(tokens, excluded, tokens.len() - 1) {
        package_list(tokens.drop_last(), excluded).push(tokens.last())
    } else {
        package_list(tokens.drop_last(), excluded)
    }
}

/// The package list that a listing's output gives.
pub open spec fn packages_of(output: Seq<char>, excluded: Set<Seq<char>>) -> Seq<Seq<char>> {
    package_list(tokens_of(output), excluded)
}

/// A name: at least one character, none of them whitespace.
pub open spec fn is_name(token: Seq<char>) -> bool {
    &&& token.len() > 0
    &&& forall|k: int| 0 <= k < token.len() ==> !whitespace(#[trigger] token[k])
}

/// Where among `tokens` the entry `k` of the package list stands.
pub open spec fn source_index(tokens: Seq<Seq<char>>, excluded: Set<Seq<char>>, k: int) -> int
    decreases tokens.len(),
{
    if tokens.len() == 0 {
        0
    } else if k < package_list(tokens.drop_last(), excluded).len() {
        source_index(tokens.drop_last(), excluded, k)
    } else {
        tokens.len() - 1
    }
}

/// A run of non-whitespace characters from `from` up to `to`, followed by
/// whitespace or by the end of the text, ends at `to`.
proof fn lemma_token_end(text: Seq<char>, from: int, to: int)
    requires
        0 <= from <= to <= text.len(),
        forall|k: int| from <= k < to ==> !whitespace(text[k]),
        to == text.len() || whitespace(text[to]),
    ensures
        token_end(text, from) == to,
    decreases to - from,
{
    if from < to {
        lemma_token_end(text, from + 1, to);
    }
}

/// Where no name begins between `lo` and `hi`, the names before `hi` are
/// those before `lo`.
proof fn lemma_no_token_starts(text: Seq<char>, lo: int, hi: int)
    requires
        lo <= hi,
        forall|k: int| lo <= k < hi ==> !starts_token(text, k),
    ensures
        tokens_before(text, hi) == tokens_before(text, lo),
    decreases hi - lo,
{
    if lo < hi {
        lemma_no_token_starts(text, lo, hi - 1);
    }
}

/// The run that begins at `from` ends at or after `from`, holds no
/// whitespace, and is followed by whitespace or by the end of the text.
proof fn lemma_token_end_bounds(text: Seq<char>, from: int)
    requires
        0 <= from <= text.len(),
    ensures
        from <= token_end(text, from) <= text.len(),
        forall|k: int| from <= k < token_end(text, from) ==> !whitespace(#[trigger] text[k]),
        token_end(text, from) == text.len() || whitespace(text[token_end(text, from)]),
    decreases text.len() - from,
{
    if from < text.len() && !whitespace(text[from]) {
        lemma_token_end_bounds(text, from + 1);
    }
}

/// Every token that begins before position `n` is a name.
proof fn lemma_tokens_before_are_names(text: Seq<char>, n: int)
    requires
        n <= text.len(),
    ensures
        forall|k: int|
            0 <= k < tokens_before(text, n).len() ==> is_name(#[trigger] tokens_before(text, n)[k]),
    decreases n,
{
    if n > 0 {
        lemma_tokens_before_are_names(text, n - 1);
        if starts_token(text, n - 1) {
            lemma_token_end_bounds(text, n - 1);
            lemma_token_end_bounds(text, n);
            let earlier = tokens_before(text, n - 1);
            let all = tokens_before(text, n);
            assert(is_name(token_at(text, n - 1)));
            assert forall|k: int| 0 <= k < all.len() implies is_name(#[trigger] all[k]) by {
                if k < earlier.len() {
                    assert(all[k] == earlier[k]);
                }
            }
        }
    }
}

/// Every token of a text is a name: it is not empty and holds no whitespace.
pub proof fn lemma_tokens_are_names(text: Seq<char>)
    ensures
        forall|k: int| 0 <= k < tokens_of(text).len() ==> is_name(#[trigger] tokens_of(text)[k]),
{
    lemma_tokens_before_are_names(text, text.len() as int);
}

/// A text none of whose lines begins with a name, such as an empty one or
/// one of blank and indented lines only, gives no token and so an empty
/// package list, whatever is excluded.
pub proof fn lemma_no_names_no_packages(text: Seq<char>, excluded: Set<Seq<char>>)
    requires
        forall|i: int| !starts_token(text, i),
    ensures
        tokens_of(text).len() == 0,
        packages_of(text, excluded).len() == 0,
{
    lemma_no_token_starts(text, 0, text.len() as int);
}

/// Whether `c` is whitespace.
pub fn is_whitespace(c: char) -> (b: bool)
    ensures
        b == whitespace(c),
{
    let n: u32 = c as u32;
    (0x09 <= n && n <= 0x0D) || n == 0x20 || n == 0x85 || n == 0xA0 || n == 0x1680 || (0x2000 <= n
        && n <= 0x200A) || n == 0x2028 || n == 0x2029 || n == 0x202F || n == 0x205F || n == 0x3000
}

/// Extracts the leading name of every line of `text`: the longest run of
/// non-whitespace characters at the start of the line. Lines without one are
/// skipped.
pub fn extract_tokens(text: &str) -> (names: Vec<String>)
    ensures
        names.deep_view() == tokens_of(text@),
        forall|k: int| 0 <= k < names.len() ==> is_name(#[trigger] names[k]@),
{
    let mut names: Vec<String> = Vec::new();
    let mut current = String::new();
    let mut in_token = false;
    let mut line_start = true;
    let ghost mut start: int = 0;
    for c in it: text.chars()
        invariant
            it.seq() == text@,
            line_start == (it.index() == 0 || text@[it.index() - 1] == '\n'),
            in_token ==> {
                &&& 0 <= start < it.index()
                &&& starts_token(text@, start)
                &&& forall|k: int| start <= k < it.index() ==> !whitespace(text@[k])
                &&& current@ == text@.subrange(start, it.index())
                &&& names.deep_view() == tokens_before(text@, start)
            },
            !in_token ==> {
                &&& current@.len() == 0
                &&& names.deep_view() == tokens_before(text@, it.index())
            },
    {
        let ghost i = it.index();
        let space = is_whitespace(c);
        if in_token {
            if space {
                proof {
                    lemma_token_end(text@, start, i);
                    lemma_no_token_starts(text@, start + 1, i + 1);
                }
                let ghost before = names.deep_view();
                names.push(current);
                assert(names.deep_view() == before.push(token_at(text@, start)));
                current = String::new();
                in_token = false;
            } else {
                current.push(c);
                assert(current@ == text@.subrange(start, i + 1));
            }
        } else if line_start && !space {
            current.push(c);
            assert(current@ == text@.subrange(i, i + 1));
            in_token = true;
            proof {
                start = i;
            }
        }
        line_start = c == '\n';
    }
    if in_token {
        proof {
            lemma_token_end(text@, start, text@.len() as int);
            lemma_no_token_starts(text@, start + 1, text@.len() as int);
        }
        let ghost before = names.deep_view();
        names.push(current);
        assert(names.deep_view() == before.push(token_at(text@, start)));
    }
    proof {
        lemma_tokens_are_names(text@);
        assert forall|k: int| 0 <= k < names.len() implies is_name(#[trigger] names[k]@) by {
            assert(names.deep_view()[k] == names[k]@);
            assert(is_name(tokens_of(text@)[k]));
        }
    }
    names
}

/// A name is in the package list exactly if it is among the tokens and not
/// excluded.
pub proof fn lemma_package_list_members(tokens: Seq<Seq<char>>, excluded: Set<Seq<char>>)
    ensures
        forall|name: Seq<char>| #[trigger]
            package_list(tokens, excluded).contains(name) <==> tokens.contains(name)
                && !excluded.contains(name),
    decreases tokens.len(),
{
    let list = package_list(tokens, excluded);
    if tokens.len() > 0 {
        let earlier_tokens = tokens.drop_last();
        let earlier = package_list(earlier_tokens, excluded);
        let last = tokens.len() - 1;
        lemma_package_list_members(earlier_tokens, excluded);
        assert forall|name: Seq<char>| #[trigger]
            list.contains(name) <==> tokens.contains(name) && !excluded.contains(name) by {
            if list.contains(name) {
                let k = choose|k: int| 0 <= k < list.len() && list[k] == name;
                if k < earlier.len() {
                    assert(earlier[k] == name);
                    assert(earlier.contains(name));
                    let t = choose|t: int| 0 <= t < earlier_tokens.len() && earlier_tokens[t] == name;
                    assert(tokens[t] == name);
                } else {
                    assert(tokens[last] == name);
                }
            }
            if tokens.contains(name) && !excluded.contains(name) {
                let t = choose|t: int| 0 <= t < tokens.len() && tokens[t] == name;
                if t < last {
                    assert(earlier_tokens[t] == name);
                    assert(earlier.contains(name));
                    let k = choose|k: int| 0 <= k < earlier.len() && earlier[k] == name;
                    assert(list[k] == name);
                } else if kept(tokens, excluded, last) {
                    assert(list[list.len() - 1] == name);
                } else {
                    let j = choose|j: int| 0 <= j < last && tokens[j] == tokens[last];
                    assert(earlier_tokens[j] == name);
                    assert(earlier.contains(name));
                    let k = choose|k: int| 0 <= k < earlier.len() && earlier[k] == name;
                    assert(list[k] == name);
                }
            }
        }
    }
}

/// No name occurs twice in the package list.
pub proof fn lemma_package_list_distinct(tokens: Seq<Seq<char>>, excluded: Set<Seq<char>>)
    ensures
        package_list(tokens, excluded).no_duplicates(),
    decreases tokens.len(),
{
    if tokens.len() > 0 {
        let earlier_tokens = tokens.drop_last();
        let earlier = package_list(earlier_tokens, excluded);
        let last = tokens.len() - 1;
        lemma_package_list_distinct(earlier_tokens, excluded);
        lemma_package_list_members(earlier_tokens, excluded);
        if kept(tokens, excluded, last) {
            assert forall|k: int| 0 <= k < earlier.len() implies earlier[k] != tokens[last] by {
                if earlier[k] == tokens[last] {
                    assert(earlier.contains(tokens[last]));
                    let t = choose|t: int|
                        0 <= t < earlier_tokens.len() && earlier_tokens[t] == tokens[last];
                    assert(tokens[t] == tokens[last]);
                }
            }
        }
    }
}

/// No excluded name is in the package list.
pub proof fn lemma_package_list_excludes(tokens: Seq<Seq<char>>, excluded: Set<Seq<char>>)
    ensures
        forall|k: int|
            0 <= k < package_list(tokens, excluded).len() ==> !excluded.contains(
                #[trigger] package_list(tokens, excluded)[k],
            ),
{
    let list = package_list(tokens, excluded);
    lemma_package_list_members(tokens, excluded);
    assert forall|k: int| 0 <= k < list.len() implies !excluded.contains(#[trigger] list[k]) by {
        assert(list.contains(list[k]));
    }
}

/// The package list keeps the order of the tokens: each entry is a token
/// that is kept, at the place that `source_index` gives, and an entry that
/// comes later in the list comes later among the tokens.
pub proof fn lemma_package_list_keeps_order(tokens: Seq<Seq<char>>, excluded: Set<Seq<char>>)
    ensures
        forall|k: int|
            0 <= k < package_list(tokens, excluded).len() ==> {
                let at = #[trigger] source_index(tokens, excluded, k);
                &&& 0 <= at < tokens.len()
                &&& tokens[at] == package_list(tokens, excluded)[k]
                &&& kept(tokens, excluded, at)
            },
        forall|a: int, b: int|
            0 <= a < b < package_list(tokens, excluded).len() ==> #[trigger] source_index(
                tokens,
                excluded,
                a,
            ) < #[trigger] source_index(tokens, excluded, b),
    decreases tokens.len(),
{
    if tokens.len() > 0 {
        let earlier_tokens = tokens.drop_last();
        let earlier = package_list(earlier_tokens, excluded);
        let list = package_list(tokens, excluded);
        lemma_package_list_keeps_order(earlier_tokens, excluded);
        assert forall|k: int| 0 <= k < list.len() implies {
            let at = #[trigger] source_index(tokens, excluded, k);
            &&& 0 <= at < tokens.len()
            &&& tokens[at] == list[k]
            &&& kept(tokens, excluded, at)
        } by {
            if k < earlier.len() {
                let at = source_index(earlier_tokens, excluded, k);
                assert(kept(earlier_tokens, excluded, at));
                assert(earlier_tokens[at] == tokens[at]);
                assert forall|j: int| 0 <= j < at implies tokens[j] != tokens[at] by {
                    assert(earlier_tokens[j] == tokens[j]);
                }
            }
        }
        assert forall|a: int, b: int| 0 <= a < b < list.len() implies #[trigger] source_index(
            tokens,
            excluded,
            a,
        ) < #[trigger] source_index(tokens, excluded, b) by {
            let at = source_index(earlier_tokens, excluded, a);
            assert(0 <= at < earlier_tokens.len());
            if b < earlier.len() {
                assert(source_index(earlier_tokens, excluded, a) < source_index(
                    earlier_tokens,
                    excluded,
                    b,
                ));
            }
        }
    }
}

/// Whether `name` is one of `names`.
pub fn contains_name(names: &[String], name: &String) -> (found: bool)
    ensures
        found == names.deep_view().contains(name@),
{
    let mut i: usize = 0;
    while i < names.len()
        invariant
            i <= names.len(),
            forall|k: int| 0 <= k < i ==> names.deep_view()[k] != name@,
        decreases names.len() - i,
    {
        if names[i] == *name {
            assert(names.deep_view()[i as int] == name@);
            return true;
        }
        i += 1;
    }
    false
}

/// Builds the package list from the names of a listing: every name that is
/// not in `exclusions`, once, in the order in which the names first occur.
pub fn build_package_list(tokens: &[String], exclusions: &[String]) -> (list: Vec<String>)
    ensures
        list.deep_view() == package_list(tokens.deep_view(), exclusions.deep_view().to_set()),
{
    let ghost all = tokens.deep_view();
    let ghost excluded = exclusions.deep_view().to_set();
    let mut list: Vec<String> = Vec::new();
    let mut i: usize = 0;
    while i < tokens.len()
        invariant
            i <= tokens.len(),
            all == tokens.deep_view(),
            excluded == exclusions.deep_view().to_set(),
            list.deep_view() == package_list(all.take(i as int), excluded),
        decreases tokens.len() - i,
    {
        let ghost seen = all.take(i as int);
        let ghost upto = all.take(i + 1);
        proof {
            lemma_package_list_members(seen, excluded);
            assert(upto.drop_last() == seen);
            if seen.contains(all[i as int]) {
                let j = choose|j: int| 0 <= j < seen.len() && seen[j] == all[i as int];
                assert(upto[j] == upto[i as int]);
            } else {
                assert forall|j: int| 0 <= j < i implies upto[j] != upto[i as int] by {
                    assert(seen[j] == upto[j]);
                }
            }
            assert(kept(upto, excluded, i as int) <==> !excluded.contains(all[i as int])
                && !seen.contains(all[i as int]));
        }
        let name = &tokens[i];
        if !contains_name(exclusions, name) && !contains_name(list.as_slice(), name) {
            let ghost before = list.deep_view();
            list.push(name.clone());
            assert(list.deep_view() == before.push(all[i as int]));
        }
        i += 1;
    }
    assert(all.take(tokens.len() as int) == all);
    list
}

/// Derives the package list from what a listing command printed: the leading
/// name of every line, without the names in `exclusions` and without
/// repetitions, in the order of first occurrence.
pub fn derive_packages(output: &str, exclusions: &[String]) -> (list: Vec<String>)
    ensures
        list.deep_view() == packages_of(output@, exclusions.deep_view().to_set()),
        list.deep_view().no_duplicates(),
        forall|k: int| 0 <= k < list.len() ==> !exclusions.deep_view().contains(#[trigger] list[k]@),
        forall|name: Seq<char>| #[trigger]
            list.deep_view().contains(name) <==> tokens_of(output@).contains(name)
                && !exclusions.deep_view().contains(name),
{
    let tokens = extract_tokens(output);
    let list = build_package_list(tokens.as_slice(), exclusions);
    proof {
        let excluded = exclusions.deep_view().to_set();
        lemma_package_list_members(tokens_of(output@), excluded);
        lemma_package_list_distinct(tokens_of(output@), excluded);
        lemma_package_list_excludes(tokens_of(output@), excluded);
        assert forall|k: int| 0 <= k < list.len() implies !exclusions.deep_view().contains(
            #[trigger] list[k]@,
        ) by {
            assert(list.deep_view()[k] == list[k]@);
        }
    }
    list
}

} // verus!
