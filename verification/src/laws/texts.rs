//! Laws of texts: order, trimming, splitting and joining.
use vstd::prelude::*;

use crate::order::{
    insert_by, le, lemma_le_antisymmetric, lemma_le_reflexive, lemma_le_total, lemma_le_transitive,
    lemma_sort_by, lt, sort_by, strictly_sorted,
};
use crate::semver::{decimal, name_set_text, quoted};
use crate::text::{
    ends_with, is_white_space, join, lemma_occurrences_concat, line_end, lines, occurrences,
    strip_carriage_return, strip_leading, trim, trim_end, trim_start, underscored,
};

verus! {

/// The texts agree up to position `i`, and there `a` has the smaller character.
pub open spec fn differs_at(a: Seq<char>, b: Seq<char>, i: int) -> bool {
    &&& 0 <= i < a.len()
    &&& i < b.len()
    &&& a.take(i) == b.take(i)
    &&& a[i] < b[i]
}

/// Names are in the order of a dictionary: a text comes before those that it begins,
/// and else the first character in which two texts differ decides.
pub proof fn law_order_is_that_of_a_dictionary(a: Seq<char>, b: Seq<char>)
    ensures
        le(a, b) <==> (a.len() <= b.len() && b.take(a.len() as int) == a) || exists|i: int|
            #[trigger] differs_at(a, b, i),
        lt(a, b) <==> le(a, b) && a != b,
    decreases a.len(),
{
    if a.len() == 0 {
        assert(b.take(0) =~= a);
    } else if b.len() > 0 && a[0] == b[0] {
        let x = a.drop_first();
        let y = b.drop_first();
        law_order_is_that_of_a_dictionary(x, y);
        assert(a.len() <= b.len() && b.take(a.len() as int) == a <==> x.len() <= y.len() && y.take(
            x.len() as int,
        ) == x) by {
            if x.len() <= y.len() && y.take(x.len() as int) == x {
                assert forall|i: int| 0 <= i < a.len() implies b.take(a.len() as int)[i]
                    == a[i] by {
                    if i > 0 {
                        assert(y.take(x.len() as int)[i - 1] == x[i - 1]);
                    }
                }
                assert(b.take(a.len() as int) =~= a);
            }
            if a.len() <= b.len() && b.take(a.len() as int) == a {
                assert forall|i: int| 0 <= i < x.len() implies y.take(x.len() as int)[i]
                    == x[i] by {
                    assert(b.take(a.len() as int)[i + 1] == a[i + 1]);
                }
                assert(y.take(x.len() as int) =~= x);
            }
        }
        if exists|i: int| #[trigger] differs_at(x, y, i) {
            let i = choose|i: int| #[trigger] differs_at(x, y, i);
            assert forall|k: int| 0 <= k < i + 1 implies #[trigger] a.take(i + 1)[k] == b.take(
                i + 1,
            )[k] by {
                if k > 0 {
                    assert(x.take(i)[k - 1] == y.take(i)[k - 1]);
                }
            }
            assert(a.take(i + 1) =~= b.take(i + 1));
            assert(differs_at(a, b, i + 1));
        }
        if exists|i: int| #[trigger] differs_at(a, b, i) {
            let i = choose|i: int| #[trigger] differs_at(a, b, i);
            assert(i > 0);
            assert forall|k: int| 0 <= k < i - 1 implies #[trigger] x.take(i - 1)[k] == y.take(
                i - 1,
            )[k] by {
                assert(a.take(i)[k + 1] == b.take(i)[k + 1]);
            }
            assert(x.take(i - 1) =~= y.take(i - 1));
            assert(differs_at(x, y, i - 1));
        }
    } else if b.len() > 0 {
        if a.len() <= b.len() && b.take(a.len() as int) == a {
            assert(b.take(a.len() as int)[0] == a[0]);
        }
        if exists|i: int| #[trigger] differs_at(a, b, i) {
            let i = choose|i: int| #[trigger] differs_at(a, b, i);
            if i > 0 {
                assert(a.take(i)[0] == b.take(i)[0]);
            }
        }
        if a[0] < b[0] {
            assert(a.take(0) =~= b.take(0));
            assert(differs_at(a, b, 0));
        }
    }
}

/// Any two names are comparable, and the order has no cycles.
pub proof fn law_order_is_total(a: Seq<char>, b: Seq<char>, c: Seq<char>)
    ensures
        le(a, a),
        le(a, b) || le(b, a),
        le(a, b) && le(b, a) ==> a == b,
        le(a, b) && le(b, c) ==> le(a, c),
{
    lemma_le_reflexive(a);
    lemma_le_total(a, b);
    if le(a, b) && le(b, a) {
        lemma_le_antisymmetric(a, b);
    }
    if le(a, b) && le(b, c) {
        lemma_le_transitive(a, b, c);
    }
}

/// Sorting puts the elements in the order of their keys, drops and adds none, and
/// leaves those with equal keys in the order that they had.
pub proof fn law_sorting_is_stable<T>(s: Seq<T>, key: spec_fn(T) -> Seq<char>, k: Seq<char>)
    ensures
        forall|i: int, j: int|
            0 <= i <= j < s.len() ==> le(
                #[trigger] key(sort_by(s, key)[i]),
                #[trigger] key(sort_by(s, key)[j]),
            ),
        sort_by(s, key).to_multiset() == s.to_multiset(),
        sort_by(s, key).filter(|x: T| key(x) == k) == s.filter(|x: T| key(x) == k),
{
    lemma_sort_by(s, key);
    lemma_stable(s, key, k);
}

proof fn lemma_stable<T>(s: Seq<T>, key: spec_fn(T) -> Seq<char>, k: Seq<char>)
    ensures
        sort_by(s, key).filter(|x: T| key(x) == k) == s.filter(|x: T| key(x) == k),
    decreases s.len(),
{
    reveal(Seq::filter);
    let same = |x: T| key(x) == k;
    if s.len() > 0 {
        let few = sort_by(s.drop_last(), key);
        lemma_stable(s.drop_last(), key, k);
        lemma_insert_filter(few, s.last(), key, k);
        assert(few.push(s.last()).drop_last() =~= few);
        assert(few.push(s.last()).last() == s.last());
    }
}

proof fn lemma_insert_filter<T>(s: Seq<T>, x: T, key: spec_fn(T) -> Seq<char>, k: Seq<char>)
    ensures
        insert_by(s, x, key).filter(|y: T| key(y) == k) == s.push(x).filter(|y: T| key(y) == k),
    decreases s.len(),
{
    reveal(Seq::filter);
    let same = |y: T| key(y) == k;
    let all = insert_by(s, x, key);
    if !(s.len() == 0 || le(key(s.last()), key(x))) {
        lemma_le_reflexive(key(x));
        let few = s.drop_last();
        lemma_insert_filter(few, x, key, k);
        assert(all.drop_last() =~= insert_by(few, x, key));
        assert(all.last() == s.last());
        assert(s.push(x).drop_last() =~= s);
        assert(s.push(x).last() == x);
        assert(few.push(x).drop_last() =~= few);
        assert(few.push(x).last() == x);
        assert(!(same(x) && same(s.last())));
        if same(x) {
            assert(all.filter(same) == insert_by(few, x, key).filter(same));
            assert(s.push(x).filter(same) == s.filter(same).push(x));
            assert(s.filter(same) == few.filter(same));
            assert(few.push(x).filter(same) == few.filter(same).push(x));
        } else if same(s.last()) {
            assert(all.filter(same) == insert_by(few, x, key).filter(same).push(s.last()));
            assert(s.push(x).filter(same) == s.filter(same));
            assert(s.filter(same) == few.filter(same).push(s.last()));
            assert(few.push(x).filter(same) == few.filter(same));
        } else {
            assert(all.filter(same) == insert_by(few, x, key).filter(same));
            assert(s.push(x).filter(same) == s.filter(same));
            assert(s.filter(same) == few.filter(same));
            assert(few.push(x).filter(same) == few.filter(same));
        }
    }
}

/// Trimming takes white space, all of it, from both ends and nothing else.
pub proof fn law_trimming_takes_white_space(s: Seq<char>)
    ensures
        exists|from: int, to: int| #[trigger] is_trimmed(s, from, to) && trim(s) == s.subrange(
            from,
            to,
        ),
{
    lemma_trim_start(s);
    let from = choose|from: int|
        0 <= from <= s.len() && #[trigger] s.skip(from) == trim_start(s) && (forall|i: int|
            0 <= i < from ==> is_white_space(#[trigger] s[i])) && (from < s.len()
            ==> !is_white_space(s[from]));
    let rest = s.skip(from);
    lemma_trim_end(rest);
    let len = choose|len: int|
        0 <= len <= rest.len() && #[trigger] rest.take(len) == trim_end(rest) && (forall|i: int|
            len <= i < rest.len() ==> is_white_space(#[trigger] rest[i])) && (len > 0
            ==> !is_white_space(rest[len - 1]));
    let to = from + len;
    assert(s.subrange(from, to) =~= rest.take(len));
    assert forall|i: int| to <= i < s.len() implies is_white_space(#[trigger] s[i]) by {
        assert(rest[i - from] == s[i]);
    }
    assert(is_trimmed(s, from, to));
}

/// Outside of the range stands white space alone, and the range neither begins nor
/// ends with any.
pub open spec fn is_trimmed(s: Seq<char>, from: int, to: int) -> bool {
    &&& 0 <= from <= to <= s.len()
    &&& forall|i: int| 0 <= i < from ==> is_white_space(#[trigger] s[i])
    &&& forall|i: int| to <= i < s.len() ==> is_white_space(#[trigger] s[i])
    &&& from < to ==> !is_white_space(s[from]) && !is_white_space(s[to - 1])
}

proof fn lemma_trim_start(s: Seq<char>)
    ensures
        exists|from: int|
            0 <= from <= s.len() && #[trigger] s.skip(from) == trim_start(s) && (forall|i: int|
                0 <= i < from ==> is_white_space(#[trigger] s[i])) && (from < s.len()
                ==> !is_white_space(s[from])),
    decreases s.len(),
{
    if s.len() > 0 && is_white_space(s[0]) {
        let few = s.drop_first();
        lemma_trim_start(few);
        let from = choose|from: int|
            0 <= from <= few.len() && #[trigger] few.skip(from) == trim_start(few) && (forall|
                i: int,
            | 0 <= i < from ==> is_white_space(#[trigger] few[i])) && (from < few.len()
                ==> !is_white_space(few[from]));
        assert(s.skip(from + 1) =~= few.skip(from));
        assert forall|i: int| 0 <= i < from + 1 implies is_white_space(#[trigger] s[i]) by {
            if i > 0 {
                assert(few[i - 1] == s[i]);
            }
        }
    } else {
        assert(s.skip(0) =~= s);
    }
}

proof fn lemma_trim_end(s: Seq<char>)
    ensures
        exists|len: int|
            0 <= len <= s.len() && #[trigger] s.take(len) == trim_end(s) && (forall|i: int|
                len <= i < s.len() ==> is_white_space(#[trigger] s[i])) && (len > 0
                ==> !is_white_space(s[len - 1])),
    decreases s.len(),
{
    if s.len() > 0 && is_white_space(s.last()) {
        let few = s.drop_last();
        lemma_trim_end(few);
        let len = choose|len: int|
            0 <= len <= few.len() && #[trigger] few.take(len) == trim_end(few) && (forall|i: int|
                len <= i < few.len() ==> is_white_space(#[trigger] few[i])) && (len > 0
                ==> !is_white_space(few[len - 1]));
        assert(s.take(len) =~= few.take(len));
        assert forall|i: int| len <= i < s.len() implies is_white_space(#[trigger] s[i]) by {
            if i < few.len() {
                assert(few[i] == s[i]);
            }
        }
    } else {
        assert(s.take(s.len() as int) =~= s);
    }
}

/// Blanks, tabs and the ends of lines are white space; no visible ASCII character is.
pub proof fn law_white_space(c: char)
    ensures
        is_white_space(' '),
        is_white_space('\t'),
        is_white_space('\n'),
        is_white_space('\r'),
        '!' <= c <= '~' ==> !is_white_space(c),
{
}

/// The characters that are white space, one by one.
pub proof fn law_white_space_characters(c: char)
    ensures
        is_white_space(c) <==> seq![
            '\u{9}',
            '\u{a}',
            '\u{b}',
            '\u{c}',
            '\u{d}',
            '\u{20}',
            '\u{85}',
            '\u{a0}',
            '\u{1680}',
            '\u{2000}',
            '\u{2001}',
            '\u{2002}',
            '\u{2003}',
            '\u{2004}',
            '\u{2005}',
            '\u{2006}',
            '\u{2007}',
            '\u{2008}',
            '\u{2009}',
            '\u{200a}',
            '\u{2028}',
            '\u{2029}',
            '\u{202f}',
            '\u{205f}',
            '\u{3000}',
        ].contains(c),
{
    let all = seq![
        '\u{9}',
        '\u{a}',
        '\u{b}',
        '\u{c}',
        '\u{d}',
        '\u{20}',
        '\u{85}',
        '\u{a0}',
        '\u{1680}',
        '\u{2000}',
        '\u{2001}',
        '\u{2002}',
        '\u{2003}',
        '\u{2004}',
        '\u{2005}',
        '\u{2006}',
        '\u{2007}',
        '\u{2008}',
        '\u{2009}',
        '\u{200a}',
        '\u{2028}',
        '\u{2029}',
        '\u{202f}',
        '\u{205f}',
        '\u{3000}',
    ];
    if is_white_space(c) {
        if c <= '\u{d}' {
            assert(all[c as int - 9] == c);
        } else if '\u{2000}' <= c <= '\u{200a}' {
            assert(all[c as int - 0x2000 + 9] == c);
        } else {
            assert(all[5] == c || all[6] == c || all[7] == c || all[8] == c || all[20] == c
                || all[21] == c || all[22] == c || all[23] == c || all[24] == c);
        }
    }
}

/// Stripping takes all of a leading character and nothing else.
pub proof fn law_stripping_takes_the_leading_character(s: Seq<char>, c: char)
    ensures
        exists|from: int|
            0 <= from <= s.len() && strip_leading(s, c) == #[trigger] s.skip(from) && (forall|
                i: int,
            | 0 <= i < from ==> #[trigger] s[i] == c) && (from < s.len() ==> s[from] != c),
    decreases s.len(),
{
    if s.len() > 0 && s[0] == c {
        let few = s.drop_first();
        law_stripping_takes_the_leading_character(few, c);
        let from = choose|from: int|
            0 <= from <= few.len() && strip_leading(few, c) == #[trigger] few.skip(from) && (forall|
                i: int,
            | 0 <= i < from ==> #[trigger] few[i] == c) && (from < few.len() ==> few[from] != c);
        assert(s.skip(from + 1) =~= few.skip(from));
        assert forall|i: int| 0 <= i < from + 1 implies #[trigger] s[i] == c by {
            if i > 0 {
                assert(few[i - 1] == s[i]);
            }
        }
    } else {
        assert(s.skip(0) =~= s);
    }
}

/// Occurrences add up, and each character counts for itself.
pub proof fn law_occurrences_add_up(a: Seq<char>, b: Seq<char>, c: char, d: char)
    ensures
        occurrences(Seq::empty(), c) == 0,
        occurrences(seq![d], c) == if c == d {
            1nat
        } else {
            0nat
        },
        occurrences(a + b, c) == occurrences(a, c) + occurrences(b, c),
{
    lemma_occurrences_concat(a, b, c);
    assert(seq![d].drop_last() =~= Seq::empty());
    assert(occurrences(seq![d].drop_last(), c) == 0);
}

/// Hyphens become underscores, and every other character stays where it is.
pub proof fn law_underscored_changes_hyphens_alone(s: Seq<char>)
    ensures
        underscored(s).len() == s.len(),
        forall|i: int| 0 <= i < s.len() && s[i] == '-' ==> #[trigger] underscored(s)[i] == '_',
        forall|i: int| 0 <= i < s.len() && s[i] != '-' ==> #[trigger] underscored(s)[i] == s[i],
{
}

/// Nothing joined is nothing, one text joined is the text, and two lists joined have
/// the separator between them.
pub proof fn law_join_puts_the_separator_between(
    a: Seq<Seq<char>>,
    b: Seq<Seq<char>>,
    one: Seq<char>,
    sep: Seq<char>,
)
    ensures
        join(Seq::empty(), sep) == Seq::<char>::empty(),
        join(seq![one], sep) == one,
        a.len() > 0 && b.len() > 0 ==> join(a + b, sep) == join(a, sep) + sep + join(b, sep),
    decreases b.len(),
{
    if a.len() > 0 && b.len() > 0 {
        let both = a + b;
        let few = b.drop_last();
        assert(both.drop_last() =~= a + few);
        assert(both.last() == b.last());
        if few.len() == 0 {
            assert(a + few =~= a);
            assert(join(b, sep) == b[0]);
        } else {
            law_join_puts_the_separator_between(a, few, one, sep);
            assert(join(both, sep) =~= join(a, sep) + sep + (join(few, sep) + sep + b.last()));
        }
    }
}

/// A line feed ends a line, with the carriage return before it if there is one; what
/// follows is split on its own. A text without a line feed is one line.
pub proof fn law_lines_end_at_line_feeds(line: Seq<char>, rest: Seq<char>)
    requires
        !line.contains('\n'),
    ensures
        lines(line + seq!['\n'] + rest) == seq![
            if line.len() > 0 && line.last() == '\r' {
                line.drop_last()
            } else {
                line
            },
        ] + lines(rest),
        line.len() > 0 ==> lines(line) == seq![line],
        lines(Seq::empty()) == Seq::<Seq<char>>::empty(),
{
    let s = line + seq!['\n'] + rest;
    lemma_line_end_at(s, line.len() as int);
    lemma_line_end_at(line, line.len() as int);
    assert(s.take(line.len() as int) =~= line);
    assert(s.skip(line.len() as int + 1) =~= rest);
    assert(strip_carriage_return(line) == if line.len() > 0 && line.last() == '\r' {
        line.drop_last()
    } else {
        line
    });
}

proof fn lemma_line_end_at(s: Seq<char>, at: int)
    requires
        0 <= at <= s.len(),
        at < s.len() ==> s[at] == '\n',
        forall|i: int| 0 <= i < at ==> s[i] != '\n',
    ensures
        line_end(s) == at,
    decreases at,
{
    if at > 0 {
        assert(s[0] != '\n');
        assert forall|i: int| 0 <= i < at - 1 implies s.drop_first()[i] != '\n' by {
            assert(s[i + 1] != '\n');
        }
        lemma_line_end_at(s.drop_first(), at - 1);
    }
}

/// A text ends with another exactly where it is something with the other behind it.
pub proof fn law_ends_with_means_a_tail(s: Seq<char>, tail: Seq<char>)
    ensures
        ends_with(s, tail) <==> exists|head: Seq<char>| s == #[trigger] (head + tail),
{
    if ends_with(s, tail) {
        let head = s.take(s.len() - tail.len());
        assert(s =~= head + s.skip(s.len() - tail.len()));
        assert(s == head + tail);
    }
    if exists|head: Seq<char>| s == #[trigger] (head + tail) {
        let head = choose|head: Seq<char>| s == #[trigger] (head + tail);
        assert(s.skip(s.len() - tail.len()) =~= tail);
    }
}

/// A number has the digits of its tenth before its own last digit.
pub proof fn law_decimal_digits(n: nat, digit: nat)
    requires
        digit < 10,
    ensures
        decimal(digit) == seq![(48 + digit) as char],
        n > 0 ==> decimal(10 * n + digit) == decimal(n).push((48 + digit) as char),
{
    if n > 0 {
        assert((10 * n + digit) / 10 == n);
        assert((10 * n + digit) % 10 == digit);
    }
}

/// A set of names is shown between braces, each name between quotes, in order, with
/// commas between them.
pub proof fn law_name_set_is_shown_in_order(names: Seq<Seq<char>>)
    requires
        strictly_sorted(names),
    ensures
        name_set_text(names) == "{"@ + join(
            names.map_values(|n: Seq<char>| "\""@ + n + "\""@),
            ", "@,
        ) + "}"@,
{
    lemma_sorted_stays(names);
    assert(names.map_values(|n: Seq<char>| quoted(n)) =~= names.map_values(
        |n: Seq<char>| "\""@ + n + "\""@,
    ));
}

proof fn lemma_sorted_stays(names: Seq<Seq<char>>)
    requires
        strictly_sorted(names),
    ensures
        sort_by(names, |n: Seq<char>| n) == names,
    decreases names.len(),
{
    let own = |n: Seq<char>| n;
    if names.len() > 0 {
        let few = names.drop_last();
        assert(strictly_sorted(few)) by {
            assert forall|i: int, j: int| 0 <= i < j < few.len() implies lt(
                #[trigger] few[i],
                #[trigger] few[j],
            ) by {
                assert(lt(names[i], names[j]));
            }
        }
        lemma_sorted_stays(few);
        if few.len() > 0 {
            assert(lt(names[few.len() - 1], names[few.len() as int]));
            assert(le(own(few.last()), own(names.last())));
        }
        assert(few.push(names.last()) =~= names);
    }
}

} // verus!
