//! Laws of the textual form of addresses: reading and writing invert each
//! other.

use crate::address::{
    address_segments, address_text, canonical, canonical_segments, cell_split, cell_text,
    column_text, digit_char, digit_value, digits_value, is_digit, is_letter, is_upper, join_dash,
    letter_index, letters_value, meta_name, parse_address, parse_cell, parse_segment,
    parse_segments, root_name, rooted, row_text, split_dash, to_upper, upper_letter, upper_text,
};
use crate::coordinate::{path_child, valid_pair, valid_path, Path};
use vstd::prelude::*;

verus! {

/// A text holds no separator.
pub open spec fn dash_free(s: Seq<char>) -> bool {
    forall|i: int| 0 <= i < s.len() ==> #[trigger] s[i] != '-'
}

proof fn column_text_reads_back(n: int)
    requires
        n >= 0,
    ensures
        forall|i: int| 0 <= i < column_text(n).len() ==> is_upper(#[trigger] column_text(n)[i]),
        letters_value(column_text(n)) == n,
        n >= 1 ==> column_text(n).len() >= 1,
    decreases n,
{
    if n > 0 {
        let q = (n - 1) / 26;
        let r = (n - 1) % 26;
        column_text_reads_back(q);
        let t = column_text(q);
        let c = upper_letter(r + 1);
        assert(column_text(n) == t.push(c));
        assert(t.push(c).drop_last() =~= t);
        assert(is_upper(c));
        assert(letter_index(c) == r + 1);
        assert forall|i: int| 0 <= i < column_text(n).len() implies is_upper(
            #[trigger] column_text(n)[i],
        ) by {
            if i < t.len() {
                assert(column_text(n)[i] == t[i]);
            }
        }
    }
}

proof fn row_text_reads_back(n: int)
    requires
        n >= 0,
    ensures
        forall|i: int| 0 <= i < row_text(n).len() ==> is_digit(#[trigger] row_text(n)[i]),
        digits_value(row_text(n)) == n,
        n >= 1 ==> row_text(n).len() >= 1 && row_text(n)[0] != '0',
    decreases n,
{
    if n > 0 {
        let q = n / 10;
        let r = n % 10;
        row_text_reads_back(q);
        let t = row_text(q);
        let c = digit_char(r);
        assert(row_text(n) == t.push(c));
        assert(t.push(c).drop_last() =~= t);
        assert(is_digit(c));
        assert(digit_value(c) == r);
        assert forall|i: int| 0 <= i < row_text(n).len() implies is_digit(
            #[trigger] row_text(n)[i],
        ) by {
            if i < t.len() {
                assert(row_text(n)[i] == t[i]);
            }
        }
        if q == 0 {
            assert(t.len() == 0);
            assert(row_text(n)[0] == c);
        } else {
            assert(row_text(n)[0] == t[0]);
        }
    }
}

proof fn letters_write_back(s: Seq<char>)
    requires
        forall|i: int| 0 <= i < s.len() ==> is_letter(#[trigger] s[i]),
    ensures
        column_text(letters_value(s)) == upper_text(s),
        letters_value(s) >= s.len(),
    decreases s.len(),
{
    if s.len() == 0 {
        assert(upper_text(s) =~= Seq::<char>::empty());
    } else {
        let init = s.drop_last();
        letters_write_back(init);
        let before = letters_value(init);
        let idx = letter_index(s.last());
        assert(is_letter(s.last()));
        assert(1 <= idx <= 26);
        let v = letters_value(s);
        assert(v == before * 26 + idx);
        assert((v - 1) / 26 == before);
        assert((v - 1) % 26 == idx - 1);
        assert(upper_letter(idx) == to_upper(s.last()));
        assert(column_text(v) == column_text(before).push(upper_letter(idx)));
        assert(upper_text(init).push(to_upper(s.last())) =~= upper_text(s));
    }
}

proof fn digits_write_back(s: Seq<char>)
    requires
        s.len() >= 1,
        forall|i: int| 0 <= i < s.len() ==> is_digit(#[trigger] s[i]),
        s[0] != '0',
    ensures
        row_text(digits_value(s)) == s,
        digits_value(s) >= 1,
    decreases s.len(),
{
    let init = s.drop_last();
    let d = digit_value(s.last());
    assert(is_digit(s.last()));
    assert(digit_char(d) == s.last());
    if s.len() == 1 {
        assert(init.len() == 0);
        assert(is_digit(s[0]));
        assert(digits_value(init) == 0);
        let v = digits_value(s);
        assert(v == d);
        assert(1 <= v <= 9);
        assert(row_text(v / 10) =~= Seq::<char>::empty());
        assert(row_text(v) =~= s);
    } else {
        assert(init[0] == s[0]);
        digits_write_back(init);
        let before = digits_value(init);
        let v = digits_value(s);
        assert(v == before * 10 + d);
        assert(v / 10 == before);
        assert(v % 10 == d);
        assert(row_text(v) == row_text(before).push(digit_char(d)));
        assert(init.push(s.last()) =~= s);
    }
}

proof fn cell_writes_back(s: Seq<char>)
    requires
        parse_cell(s) is Some,
    ensures
        cell_text(parse_cell(s)->0) == upper_text(s),
        valid_pair(parse_cell(s)->0),
        dash_free(s),
{
    let k = choose|k: int| cell_split(s, k);
    let letters = s.take(k);
    let digits = s.skip(k);
    assert forall|i: int| 0 <= i < letters.len() implies is_letter(#[trigger] letters[i]) by {
        assert(letters[i] == s[i]);
    }
    assert forall|i: int| 0 <= i < digits.len() implies is_digit(#[trigger] digits[i]) by {
        assert(digits[i] == s[k + i]);
    }
    assert(digits[0] == s[k]);
    letters_write_back(letters);
    digits_write_back(digits);
    assert forall|i: int| 0 <= i < s.len() implies #[trigger] s[i] != '-' by {
        if i < k {
            assert(is_letter(s[i]));
        } else {
            assert(is_digit(s[i]));
        }
    }
    assert(upper_text(letters) + digits =~= upper_text(s)) by {
        assert forall|i: int| 0 <= i < s.len() implies (upper_text(letters) + digits)[i]
            == upper_text(s)[i] by {
            if i < k {
                assert(letters[i] == s[i]);
            } else {
                assert(digits[i - k] == s[i]);
                assert(is_digit(s[i]));
            }
        }
    }
}

proof fn cell_split_is_unique(s: Seq<char>, k: int, other: int)
    requires
        cell_split(s, k),
        cell_split(s, other),
    ensures
        other == k,
{
    if other < k {
        assert(is_letter(s[other]));
        assert(is_digit(s[other]));
    } else if other > k {
        assert(is_letter(s[k]));
        assert(is_digit(s[k]));
    }
}

proof fn cell_reads_back(rc: (u32, u32))
    requires
        valid_pair(rc),
    ensures
        parse_cell(cell_text(rc)) == Some(rc),
        dash_free(cell_text(rc)),
{
    let letters = column_text(rc.1 as int);
    let digits = row_text(rc.0 as int);
    let s = cell_text(rc);
    let k = letters.len() as int;
    column_text_reads_back(rc.1 as int);
    row_text_reads_back(rc.0 as int);
    assert(s.take(k) =~= letters);
    assert(s.skip(k) =~= digits);
    assert forall|i: int| 0 <= i < k implies is_letter(#[trigger] s[i]) by {
        assert(s[i] == letters[i]);
        assert(is_upper(letters[i]));
    }
    assert forall|i: int| k <= i < s.len() implies is_digit(#[trigger] s[i]) by {
        assert(s[i] == digits[i - k]);
    }
    assert(s[k] == digits[0]);
    assert(cell_split(s, k));
    let other = choose|other: int| cell_split(s, other);
    cell_split_is_unique(s, k, other);
    assert forall|i: int| 0 <= i < s.len() implies #[trigger] s[i] != '-' by {
        if i < k {
            assert(is_letter(s[i]));
        } else {
            assert(is_digit(s[i]));
        }
    }
}

proof fn split_has_segments(t: Seq<char>)
    ensures
        split_dash(t).len() >= 1,
    decreases t.len(),
{
    if t.len() > 0 {
        split_has_segments(t.drop_last());
    }
}

proof fn split_of_segment(s: Seq<char>)
    requires
        dash_free(s),
    ensures
        split_dash(s) == seq![s],
    decreases s.len(),
{
    if s.len() == 0 {
        assert(s =~= Seq::<char>::empty());
        assert(split_dash(s) =~= seq![s]);
    } else {
        split_of_segment(s.drop_last());
        assert(s.last() != '-');
        assert(s.drop_last().push(s.last()) =~= s);
        assert(split_dash(s) =~= seq![s]);
    }
}

proof fn split_after_separator(t: Seq<char>, s: Seq<char>)
    requires
        dash_free(s),
    ensures
        split_dash(t + seq!['-'] + s) == split_dash(t).push(s),
    decreases s.len(),
{
    let whole = t + seq!['-'] + s;
    split_has_segments(t);
    if s.len() == 0 {
        assert(whole.drop_last() =~= t);
        assert(whole.last() == '-');
        assert(s =~= Seq::<char>::empty());
        assert(split_dash(whole) =~= split_dash(t).push(s));
    } else {
        let init = s.drop_last();
        split_after_separator(t, init);
        assert(whole.drop_last() =~= t + seq!['-'] + init);
        assert(whole.last() == s.last());
        assert(s.last() != '-');
        assert(init.push(s.last()) =~= s);
        assert(split_dash(whole) =~= split_dash(t).push(s));
    }
}

proof fn split_of_join(segs: Seq<Seq<char>>)
    requires
        segs.len() >= 1,
        forall|i: int| 0 <= i < segs.len() ==> dash_free(#[trigger] segs[i]),
    ensures
        split_dash(join_dash(segs)) == segs,
    decreases segs.len(),
{
    if segs.len() == 1 {
        split_of_segment(segs[0]);
        assert(seq![segs[0]] =~= segs);
    } else {
        split_of_join(segs.drop_last());
        split_after_separator(join_dash(segs.drop_last()), segs.last());
        assert(segs.drop_last().push(segs.last()) =~= segs);
    }
}

proof fn parsed_segments(segs: Seq<Seq<char>>, n: int)
    requires
        0 <= n,
        parse_segments(segs, n) is Ok,
    ensures
        parse_segments(segs, n)->Ok_0.len() == n,
        forall|i: int|
            0 <= i < n ==> parse_segment(segs, i) == Some(
                #[trigger] parse_segments(segs, n)->Ok_0[i],
            ),
    decreases n,
{
    if n > 0 {
        parsed_segments(segs, n - 1);
    }
}

proof fn segments_parse(segs: Seq<Seq<char>>, p: Path, n: int)
    requires
        0 <= n <= p.len(),
        forall|i: int| 0 <= i < n ==> #[trigger] parse_segment(segs, i) == Some(p[i]),
    ensures
        parse_segments(segs, n) == Ok::<Path, Seq<char>>(p.take(n)),
    decreases n,
{
    if n == 0 {
        assert(p.take(0) =~= Seq::<(u32, u32)>::empty());
    } else {
        segments_parse(segs, p, n - 1);
        assert(parse_segment(segs, n - 1) == Some(p[n - 1]));
        assert(p.take(n - 1).push(p[n - 1]) =~= p.take(n));
    }
}

proof fn parse_reads_a_prefix(segs: Seq<Seq<char>>, more: Seq<Seq<char>>, n: int)
    requires
        0 <= n <= segs.len(),
        segs.len() >= 1,
    ensures
        parse_segments(segs + more, n) == parse_segments(segs, n),
    decreases n,
{
    if n > 0 {
        parse_reads_a_prefix(segs, more, n - 1);
        assert((segs + more)[n - 1] == segs[n - 1]);
        assert((segs + more)[0] == segs[0]);
    }
}

proof fn names_differ()
    ensures
        root_name() != meta_name(),
        dash_free(root_name()),
        dash_free(meta_name()),
{
    assert(root_name()[0] == 'r');
    assert(meta_name()[0] == 'm');
}

/// A text that is read as an address is read as a valid one, which starts
/// at a named root and has one pair for each segment of the text.
pub proof fn parsed_is_address(t: Seq<char>)
    requires
        parse_address(t) is Ok,
    ensures
        valid_path(parse_address(t)->Ok_0),
        rooted(parse_address(t)->Ok_0),
        parse_address(t)->Ok_0.len() == split_dash(t).len(),
{
    let segs = split_dash(t);
    let p = parse_address(t)->Ok_0;
    split_has_segments(t);
    parsed_segments(segs, segs.len() as int);
    assert(parse_segment(segs, 0) == Some(p[0]));
    assert forall|i: int| 0 <= i < p.len() implies (#[trigger] p[i]).0 >= 1 && p[i].1 >= 1 by {
        assert(parse_segment(segs, i) == Some(p[i]));
        if i > 0 {
            cell_writes_back(segs[i]);
        }
    }
}

/// Writing after reading gives the text back: for every text that is an
/// address, the text of the address it denotes is the text itself with
/// its column letters in upper case.
pub proof fn parse_then_render(t: Seq<char>)
    requires
        parse_address(t) is Ok,
    ensures
        address_text(parse_address(t)->Ok_0) == canonical(t),
{
    let segs = split_dash(t);
    let p = parse_address(t)->Ok_0;
    split_has_segments(t);
    parsed_segments(segs, segs.len() as int);
    assert forall|i: int| 0 <= i < p.len() implies #[trigger] address_segments(p)[i]
        == canonical_segments(segs)[i] by {
        assert(parse_segment(segs, i) == Some(p[i]));
        if i > 0 {
            cell_writes_back(segs[i]);
        }
    }
    assert(address_segments(p) =~= canonical_segments(segs));
}

/// Reading after writing gives the address back: the text of an address
/// that starts at a named root denotes that address.
pub proof fn render_then_parse(p: Path)
    requires
        valid_path(p),
        rooted(p),
    ensures
        parse_address(address_text(p)) == Ok::<Path, Seq<char>>(p),
{
    let segs = address_segments(p);
    names_differ();
    assert forall|i: int| 0 <= i < segs.len() implies dash_free(#[trigger] segs[i])
        && parse_segment(segs, i) == Some(p[i]) by {
        if i > 0 {
            cell_reads_back(p[i]);
        }
    }
    split_of_join(segs);
    segments_parse(segs, p, p.len() as int);
    assert(p.take(p.len() as int) =~= p);
}

/// Reading follows the nesting: where a text denotes an address and a
/// segment denotes a cell, the text extended by a separator and the
/// segment denotes that cell inside the address.
pub proof fn parse_extends(t: Seq<char>, seg: Seq<char>)
    requires
        parse_address(t) is Ok,
        parse_cell(seg) is Some,
    ensures
        parse_address(t + seq!['-'] + seg) == Ok::<Path, Seq<char>>(
            path_child(parse_address(t)->Ok_0, parse_cell(seg)->0),
        ),
{
    let segs = split_dash(t);
    split_has_segments(t);
    cell_writes_back(seg);
    split_after_separator(t, seg);
    assert(segs.push(seg) =~= segs + seq![seg]);
    parse_reads_a_prefix(segs, seq![seg], segs.len() as int);
    let longer = segs + seq![seg];
    assert(longer[segs.len() as int] == seg);
    assert(parse_segment(longer, segs.len() as int) == parse_cell(seg));
}

} // verus!
