//! What holds of texts.
use crate::text::{
    all_digits, decimal, digits_value, has_part, is_blank, is_char, is_space, joined, lowered, pieces, pieces_not_empty,
    replaced, stands_at, trimmed, trimmed_end, trimmed_has_plain_ends, trimmed_start, value_of,
};
use vstd::prelude::*;

verus! {

/// Whether a text is another one with white space before and behind it, and nothing else.
pub open spec fn is_padded(s: Seq<char>, inner: Seq<char>) -> bool {
    exists|before: Seq<char>, behind: Seq<char>|
        #![trigger before + inner + behind]
        s == before + inner + behind && is_blank(before) && is_blank(behind)
}

/// To trim a text takes white space off its ends and nothing else, and all of it.
pub proof fn trimming_takes_white_space_alone(s: Seq<char>)
    ensures
        is_padded(s, trimmed(s)),
        trimmed(s).len() > 0 ==> !is_space(trimmed(s)[0]) && !is_space(trimmed(s).last()),
{
    let inner = trimmed(s);
    let middle = trimmed_start(s);
    start_is_taken(s);
    end_is_taken(middle);
    trimmed_has_plain_ends(s);
    let before = s.take(s.len() - middle.len());
    let behind = middle.skip(inner.len() as int);
    assert(s =~= before + inner + behind);
}

proof fn start_is_taken(s: Seq<char>)
    ensures
        trimmed_start(s).len() <= s.len(),
        s == s.take(s.len() - trimmed_start(s).len()) + trimmed_start(s),
        is_blank(s.take(s.len() - trimmed_start(s).len())),
    decreases s.len(),
{
    if s.len() > 0 && is_space(s[0]) {
        let rest = s.drop_first();
        start_is_taken(rest);
        let taken = s.take(s.len() - trimmed_start(s).len());
        let before = rest.take(rest.len() - trimmed_start(rest).len());
        assert(taken =~= seq![s[0]] + before);
        assert forall|i: int| 0 <= i < taken.len() implies is_space(#[trigger] taken[i]) by {
            if i > 0 {
                assert(taken[i] == before[i - 1]);
            }
        }
        assert(s =~= taken + trimmed_start(s)) by {
            assert(s =~= seq![s[0]] + rest);
        }
    } else {
        assert(s =~= s.take(0) + s);
    }
}

proof fn end_is_taken(s: Seq<char>)
    ensures
        trimmed_end(s).len() <= s.len(),
        s == trimmed_end(s) + s.skip(trimmed_end(s).len() as int),
        is_blank(s.skip(trimmed_end(s).len() as int)),
    decreases s.len(),
{
    if s.len() > 0 && is_space(s.last()) {
        let rest = s.drop_last();
        end_is_taken(rest);
        let taken = s.skip(trimmed_end(s).len() as int);
        let before = rest.skip(trimmed_end(rest).len() as int);
        assert(taken =~= before.push(s.last()));
        assert forall|i: int| 0 <= i < taken.len() implies is_space(#[trigger] taken[i]) by {
            if i < before.len() {
                assert(taken[i] == before[i]);
            }
        }
        assert(s =~= rest.push(s.last()));
    } else {
        assert(s =~= s + s.skip(s.len() as int));
    }
}

/// A text in lower case is as long, has small letters for the capital ones of ASCII, and is otherwise the same.
pub proof fn lower_case_changes_capitals_alone(s: Seq<char>, i: int)
    requires
        0 <= i < s.len(),
    ensures
        lowered(s).len() == s.len(),
        65 <= s[i] as int <= 90 ==> lowered(s)[i] as int == s[i] as int + 32,
        !(65 <= s[i] as int <= 90) ==> lowered(s)[i] == s[i],
        lowered(lowered(s)) == lowered(s),
{
    assert(lowered(lowered(s)) =~= lowered(s));
}

/// The decimal text of a number is made of digits, has no zero in front, and stands for the number.
pub proof fn decimal_texts_stand_for_their_numbers(n: nat)
    ensures
        all_digits(decimal(n)),
        digits_value(decimal(n)) == n,
        n > 0 ==> decimal(n)[0] != '0',
    decreases n,
{
    let s = decimal(n);
    if n < 10 {
        assert(s.drop_last() =~= Seq::empty());
        assert(digits_value(s.drop_last()) == 0);
    } else {
        decimal_texts_stand_for_their_numbers(n / 10);
        assert(s.drop_last() =~= decimal(n / 10));
        assert(s[0] == decimal(n / 10)[0]) by {
            assert(decimal(n / 10).len() > 0);
        }
        assert forall|i: int| 0 <= i < s.len() implies '0' <= #[trigger] s[i] && s[i] <= '9' by {
            if i < s.len() - 1 {
                assert(s[i] == decimal(n / 10)[i]);
            }
        }
    }
}

/// The pieces of a text, put together with the character that they were parted at, are the text, and none of them
/// holds that character.
pub proof fn pieces_come_together(s: Seq<char>, c: char)
    ensures
        joined(pieces(s, is_char(c)), seq![c]) == s,
        forall|i: int| 0 <= i < pieces(s, is_char(c)).len() ==> !(#[trigger] pieces(s, is_char(c))[i]).contains(c),
    decreases s.len(),
{
    let all = pieces(s, is_char(c));
    if s.len() > 0 {
        let rest = s.drop_last();
        let before = pieces(rest, is_char(c));
        pieces_come_together(rest, c);
        pieces_not_empty(rest, is_char(c));
        if s.last() == c {
            assert(all.drop_last() =~= before);
            assert(joined(all, seq![c]) =~= rest + seq![c] + Seq::<char>::empty());
            assert(s =~= rest + seq![c] + Seq::<char>::empty());
        } else {
            let last = before.last().push(s.last());
            assert(all.drop_last() =~= before.drop_last());
            assert(all.last() == last);
            if before.len() == 1 {
                assert(joined(before, seq![c]) == before[0]);
                assert(joined(all, seq![c]) == all[0]);
            }
            assert(joined(all, seq![c]) =~= joined(before, seq![c]).push(s.last()));
            assert(s =~= rest.push(s.last()));
            assert(!last.contains(c)) by {
                if last.contains(c) {
                    let i = choose|i: int| 0 <= i < last.len() && last[i] == c;
                    assert(before[before.len() - 1][i] == c);
                }
            }
        }
        assert forall|i: int| 0 <= i < all.len() implies !(#[trigger] all[i]).contains(c) by {
            if i < all.len() - 1 {
                assert(all[i] == before[i]);
            }
        }
    }
}

/// To replace a part of a text leaves a text without that part alone, and changes the first place where it stands to the
/// other part.
pub proof fn replacing_changes_the_part_alone(before: Seq<char>, from: Seq<char>, to: Seq<char>, behind: Seq<char>)
    requires
        from.len() > 0,
    ensures
        !has_part(before, from) ==> replaced(before, from, to) == before,
        (forall|at: int| 0 <= at < before.len() ==> !#[trigger] stands_at(before + from + behind, from, at)) ==> replaced(
            before + from + behind,
            from,
            to,
        ) == before + to + replaced(behind, from, to),
    decreases before.len(),
{
    if !has_part(before, from) {
        nothing_is_replaced(before, from, to);
    }
    let s = before + from + behind;
    if forall|at: int| 0 <= at < before.len() ==> !#[trigger] stands_at(s, from, at) {
        if before.len() == 0 {
            assert(s =~= from + behind);
            assert(s.subrange(0, from.len() as int) =~= from);
            assert(stands_at(s, from, 0));
            assert(s.skip(from.len() as int) =~= behind);
            assert(before + to + replaced(behind, from, to) =~= to + replaced(behind, from, to));
        } else {
            assert(!stands_at(s, from, 0));
            let rest = before.drop_first();
            let t = rest + from + behind;
            assert(s.skip(1) =~= t);
            assert forall|at: int| 0 <= at < rest.len() implies !#[trigger] stands_at(t, from, at) by {
                if stands_at(t, from, at) {
                    assert(s.subrange(at + 1, at + 1 + from.len()) =~= t.subrange(at, at + from.len()));
                    assert(stands_at(s, from, at + 1));
                }
            }
            replacing_changes_the_part_alone(rest, from, to, behind);
            assert(seq![s[0]] + (rest + to + replaced(behind, from, to)) =~= before + to + replaced(behind, from, to));
        }
    }
}

pub proof fn nothing_is_replaced(s: Seq<char>, from: Seq<char>, to: Seq<char>)
    requires
        from.len() > 0,
        !has_part(s, from),
    ensures
        replaced(s, from, to) == s,
    decreases s.len(),
{
    if s.len() > 0 {
        assert(!stands_at(s, from, 0));
        let rest = s.skip(1);
        assert(!has_part(rest, from)) by {
            if has_part(rest, from) {
                let at = choose|at: int| #[trigger] stands_at(rest, from, at);
                assert(s.subrange(at + 1, at + 1 + from.len()) =~= rest.subrange(at, at + from.len()));
                assert(stands_at(s, from, at + 1));
            }
        }
        nothing_is_replaced(rest, from, to);
        assert(seq![s[0]] + rest =~= s);
    }
}

/// The value of a name is that of the last pair with the name.
pub proof fn values_are_those_given_last(pairs: Seq<(Seq<char>, Seq<char>)>, name: Seq<char>)
    ensures
        value_of(pairs, name) is None <==> forall|i: int| 0 <= i < pairs.len() ==> (#[trigger] pairs[i]).0 != name,
        forall|i: int|
            0 <= i < pairs.len() && (#[trigger] pairs[i]).0 == name && (forall|j: int|
                i < j < pairs.len() ==> (#[trigger] pairs[j]).0 != name) ==> value_of(pairs, name) == Some(pairs[i].1),
    decreases pairs.len(),
{
    if pairs.len() > 0 {
        let before = pairs.drop_last();
        values_are_those_given_last(before, name);
        assert(forall|i: int| 0 <= i < before.len() ==> #[trigger] before[i] == pairs[i]);
        assert forall|i: int|
            0 <= i < pairs.len() && (#[trigger] pairs[i]).0 == name && (forall|j: int|
                i < j < pairs.len() ==> (#[trigger] pairs[j]).0 != name) implies value_of(pairs, name) == Some(pairs[i].1) by {
            if i < before.len() {
                assert(pairs[pairs.len() - 1].0 != name);
                assert(before[i].0 == name);
            }
        }
        if pairs.last().0 != name && value_of(before, name) is Some {
            let i = choose|i: int| 0 <= i < before.len() && (#[trigger] before[i]).0 == name;
            assert(pairs[i].0 == name);
        }
        if pairs.last().0 == name {
            assert(pairs[pairs.len() - 1].0 == name);
        } else if value_of(before, name) is None {
            assert forall|i: int| 0 <= i < pairs.len() implies (#[trigger] pairs[i]).0 != name by {
                if i < before.len() {
                    assert(before[i].0 != name);
                }
            }
        }
    }
}

} // verus!
