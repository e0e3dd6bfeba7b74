//! The textual form of addresses: a name for the top level, then one
//! `<column letters><row number>` segment per nested grid, joined by `-`.

use crate::coordinate::{valid_pair, Coordinate, Path};
use crate::error::Error;
use vstd::prelude::*;
use vstd::std_specs::iter::IteratorSpec;

verus! {

/// An upper-case letter of the alphabet.
pub open spec fn is_upper(c: char) -> bool {
    'A' <= c <= 'Z'
}

/// A lower-case letter of the alphabet.
pub open spec fn is_lower(c: char) -> bool {
    'a' <= c <= 'z'
}

/// A letter of the alphabet, in either case.
pub open spec fn is_letter(c: char) -> bool {
    is_upper(c) || is_lower(c)
}

/// A decimal digit.
pub open spec fn is_digit(c: char) -> bool {
    '0' <= c <= '9'
}

/// `A` and `a` are 1, `Z` and `z` are 26; any other character counts 0.
pub open spec fn letter_index(c: char) -> int {
    if is_upper(c) {
        c as int - 'A' as int + 1
    } else if is_lower(c) {
        c as int - 'a' as int + 1
    } else {
        0
    }
}

/// The value of a decimal digit; any other character counts 0.
pub open spec fn digit_value(c: char) -> int {
    if is_digit(c) {
        c as int - '0' as int
    } else {
        0
    }
}

/// The column that a run of letters denotes: `A`..`Z` are 1..26, `AA` is 27.
pub open spec fn letters_value(s: Seq<char>) -> int
    decreases s.len(),
{
    if s.len() == 0 {
        0
    } else {
        letters_value(s.drop_last()) * 26 + letter_index(s.last())
    }
}

/// The number that a run of decimal digits denotes.
pub open spec fn digits_value(s: Seq<char>) -> int
    decreases s.len(),
{
    if s.len() == 0 {
        0
    } else {
        digits_value(s.drop_last()) * 10 + digit_value(s.last())
    }
}

/// The name of the document root.
pub open spec fn root_name() -> Seq<char> {
    seq!['r', 'o', 'o', 't']
}

/// The name of the root of definitions.
pub open spec fn meta_name() -> Seq<char> {
    seq!['m', 'e', 't', 'a']
}

/// The segments of a text: the runs between its `-` separators. A text
/// without separator is one segment; an empty text is one empty segment.
pub open spec fn split_dash(t: Seq<char>) -> Seq<Seq<char>>
    decreases t.len(),
{
    if t.len() == 0 {
        seq![Seq::<char>::empty()]
    } else {
        let init = split_dash(t.drop_last());
        if t.last() == '-' {
            init.push(Seq::<char>::empty())
        } else {
            init.update(init.len() - 1, init.last().push(t.last()))
        }
    }
}

/// `s` is a cell segment whose letters end before index `k`: letters, then
/// a row number without leading zero, both within `u32`.
pub open spec fn cell_split(s: Seq<char>, k: int) -> bool {
    &&& 0 < k < s.len()
    &&& forall|i: int| 0 <= i < k ==> is_letter(#[trigger] s[i])
    &&& forall|i: int| k <= i < s.len() ==> is_digit(#[trigger] s[i])
    &&& s[k] != '0'
    &&& letters_value(s.take(k)) <= u32::MAX
    &&& digits_value(s.skip(k)) <= u32::MAX
}

/// The `(row, col)` pair that a cell segment such as `B3` denotes.
pub open spec fn parse_cell(s: Seq<char>) -> Option<(u32, u32)> {
    if exists|k: int| cell_split(s, k) {
        let k = choose|k: int| cell_split(s, k);
        Some((digits_value(s.skip(k)) as u32, letters_value(s.take(k)) as u32))
    } else {
        None
    }
}

/// The pair that a top-level name denotes.
pub open spec fn parse_head(s: Seq<char>) -> Option<(u32, u32)> {
    if s == root_name() {
        Some((1u32, 1u32))
    } else if s == meta_name() {
        Some((1u32, 2u32))
    } else {
        None
    }
}

/// The pair of segment `i`: the first segment is a name, the others cells.
pub open spec fn parse_segment(segs: Seq<Seq<char>>, i: int) -> Option<(u32, u32)> {
    if i == 0 {
        parse_head(segs[0])
    } else {
        parse_cell(segs[i])
    }
}

/// The path of the first `n` segments, or the first segment among them
/// that denotes no pair.
pub open spec fn parse_segments(segs: Seq<Seq<char>>, n: int) -> Result<Path, Seq<char>>
    decreases n,
{
    if n <= 0 {
        Ok(Seq::empty())
    } else {
        match parse_segments(segs, n - 1) {
            Err(bad) => Err(bad),
            Ok(p) => match parse_segment(segs, n - 1) {
                Some(rc) => Ok(p.push(rc)),
                None => Err(segs[n - 1]),
            },
        }
    }
}

/// What a text denotes: the path of an address, or the first segment that
/// breaks the grammar.
pub open spec fn parse_address(t: Seq<char>) -> Result<Path, Seq<char>> {
    parse_segments(split_dash(t), split_dash(t).len() as int)
}

proof fn letters_value_grows(s: Seq<char>, i: int, j: int)
    requires
        0 <= i <= j <= s.len(),
    ensures
        0 <= letters_value(s.take(i)) <= letters_value(s.take(j)),
    decreases j - i, i,
{
    if i < j {
        assert(s.take(j).drop_last() =~= s.take(j - 1));
        letters_value_grows(s, i, j - 1);
    } else if i > 0 {
        assert(s.take(i).drop_last() =~= s.take(i - 1));
        letters_value_grows(s, i - 1, i - 1);
    }
}

proof fn digits_value_grows(s: Seq<char>, k: int, i: int, j: int)
    requires
        0 <= k <= i <= j <= s.len(),
    ensures
        0 <= digits_value(s.subrange(k, i)) <= digits_value(s.subrange(k, j)),
    decreases j - i, i - k,
{
    if i < j {
        assert(s.subrange(k, j).drop_last() =~= s.subrange(k, j - 1));
        digits_value_grows(s, k, i, j - 1);
    } else if i > k {
        assert(s.subrange(k, i).drop_last() =~= s.subrange(k, i - 1));
        digits_value_grows(s, k, i - 1, i - 1);
    }
}

/// A cell segment splits in one place only: at its first character that is
/// no letter.
proof fn cell_split_is_at(s: Seq<char>, k: int, other: int)
    requires
        0 <= k <= s.len(),
        forall|i: int| 0 <= i < k ==> is_letter(#[trigger] s[i]),
        k < s.len() ==> !is_letter(s[k]),
        cell_split(s, other),
    ensures
        other == k,
{
    if other < k {
        assert(is_letter(s[other]));
        assert(is_digit(s[other]));
    } else if other > k {
        assert(is_letter(s[k]));
    }
}

fn is_letter_at(c: char) -> (r: bool)
    ensures
        r == is_letter(c),
{
    (c >= 'A' && c <= 'Z') || (c >= 'a' && c <= 'z')
}

fn is_digit_at(c: char) -> (r: bool)
    ensures
        r == is_digit(c),
{
    c >= '0' && c <= '9'
}

fn letter_index_of(c: char) -> (r: u64)
    requires
        is_letter(c),
    ensures
        r == letter_index(c),
        1 <= r <= 26,
{
    if c >= 'A' && c <= 'Z' {
        (c as u32 - 'A' as u32 + 1) as u64
    } else {
        (c as u32 - 'a' as u32 + 1) as u64
    }
}

fn parse_cell_segment(s: &Vec<char>) -> (r: Option<(u32, u32)>)
    ensures
        r == parse_cell(s@),
        r is Some ==> valid_pair(r->0),
{
    let n = s.len();
    let mut k: usize = 0;
    let mut col: u64 = 0;
    while k < n && is_letter_at(s[k])
        invariant
            k <= n == s.len(),
            forall|i: int| 0 <= i < k ==> is_letter(#[trigger] s@[i]),
            col == letters_value(s@.take(k as int)),
            col <= u32::MAX,
            k > 0 ==> col >= 1,
        decreases n - k,
    {
        let next = col * 26 + letter_index_of(s[k]);
        proof {
            assert(s@.take(k + 1).drop_last() =~= s@.take(k as int));
            assert(next == letters_value(s@.take(k + 1)));
        }
        if next > u32::MAX as u64 {
            proof {
                assert forall|other: int| !cell_split(s@, other) by {
                    if cell_split(s@, other) {
                        if other <= k {
                            assert(is_letter(s@[other]));
                            assert(is_digit(s@[other]));
                        }
                        letters_value_grows(s@, k + 1, other);
                    }
                }
            }
            return None;
        }
        col = next;
        k += 1;
    }
    if k == 0 || k == n || !is_digit_at(s[k]) || s[k] == '0' {
        proof {
            assert forall|other: int| !cell_split(s@, other) by {
                if cell_split(s@, other) {
                    cell_split_is_at(s@, k as int, other);
                }
            }
        }
        return None;
    }
    let mut i: usize = k;
    let mut row: u64 = 0;
    while i < n
        invariant
            0 < k <= i <= n == s.len(),
            forall|j: int| 0 <= j < k ==> is_letter(#[trigger] s@[j]),
            !is_letter(s@[k as int]),
            s@[k as int] != '0',
            is_digit(s@[k as int]),
            forall|j: int| k <= j < i ==> is_digit(#[trigger] s@[j]),
            row == digits_value(s@.subrange(k as int, i as int)),
            row <= u32::MAX,
            i > k ==> row >= 1,
            col == letters_value(s@.take(k as int)),
            1 <= col <= u32::MAX,
        decreases n - i,
    {
        if !is_digit_at(s[i]) {
            proof {
                assert forall|other: int| !cell_split(s@, other) by {
                    if cell_split(s@, other) {
                        cell_split_is_at(s@, k as int, other);
                        assert(is_digit(s@[i as int]));
                    }
                }
            }
            return None;
        }
        let next = row * 10 + (s[i] as u32 - '0' as u32) as u64;
        proof {
            assert(s@.subrange(k as int, i + 1).drop_last() =~= s@.subrange(k as int, i as int));
            assert(next == digits_value(s@.subrange(k as int, i + 1)));
            if i == k {
                assert(s@.subrange(k as int, i as int) =~= Seq::<char>::empty());
            }
        }
        if next > u32::MAX as u64 {
            proof {
                assert forall|other: int| !cell_split(s@, other) by {
                    if cell_split(s@, other) {
                        cell_split_is_at(s@, k as int, other);
                        digits_value_grows(s@, k as int, i + 1, n as int);
                        assert(s@.skip(k as int) =~= s@.subrange(k as int, n as int));
                    }
                }
            }
            return None;
        }
        row = next;
        i += 1;
    }
    proof {
        assert(s@.skip(k as int) =~= s@.subrange(k as int, n as int));
        assert(cell_split(s@, k as int));
        let other = choose|other: int| cell_split(s@, other);
        cell_split_is_at(s@, k as int, other);
    }
    Some((row as u32, col as u32))
}

fn parse_head_segment(s: &Vec<char>) -> (r: Option<(u32, u32)>)
    ensures
        r == parse_head(s@),
        r is Some ==> valid_pair(r->0),
{
    if s.len() != 4 {
        return None;
    }
    if s[0] == 'r' && s[1] == 'o' && s[2] == 'o' && s[3] == 't' {
        assert(s@ =~= root_name());
        Some((1, 1))
    } else if s[0] == 'm' && s[1] == 'e' && s[2] == 't' && s[3] == 'a' {
        assert(s@ =~= meta_name());
        Some((1, 2))
    } else {
        None
    }
}

fn split_segments(t: &Vec<char>) -> (segs: Vec<Vec<char>>)
    ensures
        segs@.len() == split_dash(t@).len(),
        segs@.len() >= 1,
        forall|i: int| 0 <= i < segs@.len() ==> (#[trigger] segs@[i])@ == split_dash(t@)[i],
{
    let mut segs: Vec<Vec<char>> = Vec::new();
    let mut cur: Vec<char> = Vec::new();
    let mut i: usize = 0;
    assert(t@.take(0) =~= Seq::<char>::empty());
    while i < t.len()
        invariant
            i <= t.len(),
            split_dash(t@.take(i as int)).len() == segs@.len() + 1,
            forall|j: int|
                0 <= j < segs@.len() ==> (#[trigger] segs@[j])@ == split_dash(t@.take(i as int))[j],
            cur@ == split_dash(t@.take(i as int)).last(),
        decreases t.len() - i,
    {
        let c = t[i];
        proof {
            assert(t@.take(i + 1).drop_last() =~= t@.take(i as int));
        }
        if c == '-' {
            segs.push(cur);
            cur = Vec::new();
        } else {
            cur.push(c);
        }
        i += 1;
    }
    segs.push(cur);
    proof {
        assert(t@.take(t.len() as int) =~= t@);
    }
    segs
}

pub(crate) fn chars_of(text: &str) -> (v: Vec<char>)
    ensures
        v@ == text@,
{
    let mut v: Vec<char> = Vec::new();
    let mut it = text.chars();
    loop
        invariant
            it.obeys_prophetic_iter_laws(),
            it.decrease() is Some,
            v@ + it.remaining() == text@,
        ensures
            v@ == text@,
        decreases it.decrease()->0,
    {
        match it.next() {
            Some(c) => {
                v.push(c);
            },
            None => {
                assert(it.remaining() =~= Seq::<char>::empty());
                assert(v@ + it.remaining() =~= v@);
                break;
            },
        }
    }
    v
}


/// `std::string::String::push`: the character is appended to the end of
/// the string, and nothing else of it changes.
pub assume_specification[ String::push ](s: &mut String, c: char)
    ensures
        final(s)@ == old(s)@.push(c),
;

fn string_of(chars: &Vec<char>) -> (s: String)
    ensures
        s@ == chars@,
{
    let mut s = String::new();
    let mut i: usize = 0;
    while i < chars.len()
        invariant
            i <= chars.len(),
            s@ == chars@.take(i as int),
        decreases chars.len() - i,
    {
        s.push(chars[i]);
        proof {
            assert(chars@.take(i + 1) =~= chars@.take(i as int).push(chars@[i as int]));
        }
        i += 1;
    }
    proof {
        assert(chars@.take(chars.len() as int) =~= chars@);
    }
    s
}

proof fn parse_error_stays(segs: Seq<Seq<char>>, n: int, m: int)
    requires
        0 <= n <= m,
        parse_segments(segs, n) is Err,
    ensures
        parse_segments(segs, m) == parse_segments(segs, n),
    decreases m - n,
{
    if n < m {
        parse_error_stays(segs, n, m - 1);
    }
}

/// The parser of textual addresses.
pub struct CoordinateParser;

impl CoordinateParser {
    /// Reads an address such as `root-A3-B1`. The result is the address the
    /// text denotes, or the first segment of the text that breaks the
    /// grammar.
    pub fn parse(text: &str) -> (r: Result<Coordinate, Error>)
        ensures
            parse_address(text@) is Ok ==> r is Ok && r->Ok_0@ == parse_address(text@)->Ok_0,
            parse_address(text@) is Err ==> r is Err && r->Err_0 is MalformedAddress
                && r->Err_0->MalformedAddress_0@ == parse_address(text@)->Err_0,
    {
        let chars = chars_of(text);
        let segs = split_segments(&chars);
        let ghost model = split_dash(text@);
        let mut pairs: Vec<(u32, u32)> = Vec::new();
        let mut i: usize = 0;
        while i < segs.len()
            invariant
                i <= segs.len(),
                model == split_dash(text@),
                segs@.len() == model.len(),
                forall|j: int| 0 <= j < segs@.len() ==> (#[trigger] segs@[j])@ == model[j],
                parse_segments(model, i as int) == Ok::<Path, Seq<char>>(pairs@),
                pairs@.len() == i,
                forall|j: int| 0 <= j < pairs@.len() ==> valid_pair(#[trigger] pairs@[j]),
            decreases segs.len() - i,
        {
            let found = if i == 0 {
                parse_head_segment(&segs[i])
            } else {
                parse_cell_segment(&segs[i])
            };
            match found {
                Some(rc) => {
                    pairs.push(rc);
                },
                None => {
                    proof {
                        assert(parse_segments(model, i + 1) == Err::<Path, Seq<char>>(model[i as int]));
                        parse_error_stays(model, i + 1, model.len() as int);
                    }
                    return Err(Error::MalformedAddress(string_of(&segs[i])));
                },
            }
            i += 1;
        }
        Coordinate::new(pairs)
    }
}

/// The upper-case letter with index `k`, for `k` from 1 to 26.
pub open spec fn upper_letter(k: int) -> char {
    (k + 64) as char
}

/// The decimal digit of `d`, for `d` from 0 to 9.
pub open spec fn digit_char(d: int) -> char {
    (d + 48) as char
}

/// A letter in upper case; any other character as it is.
pub open spec fn to_upper(c: char) -> char {
    if is_lower(c) {
        (c as int - 32) as char
    } else {
        c
    }
}

/// A text with its letters in upper case.
pub open spec fn upper_text(s: Seq<char>) -> Seq<char> {
    Seq::new(s.len(), |i: int| to_upper(s[i]))
}

/// The letters of column `n`: `A` for 1, `Z` for 26, `AA` for 27.
pub open spec fn column_text(n: int) -> Seq<char>
    decreases n,
{
    if n <= 0 {
        Seq::empty()
    } else {
        column_text((n - 1) / 26).push(upper_letter((n - 1) % 26 + 1))
    }
}

/// The decimal digits of row `n`, without leading zero.
pub open spec fn row_text(n: int) -> Seq<char>
    decreases n,
{
    if n <= 0 {
        Seq::empty()
    } else {
        row_text(n / 10).push(digit_char(n % 10))
    }
}

/// The segment of a cell: its column letters, then its row number.
pub open spec fn cell_text(rc: (u32, u32)) -> Seq<char> {
    column_text(rc.1 as int) + row_text(rc.0 as int)
}

/// The segment of a top-level pair: the name of a root, or the cell form
/// for a pair that is neither root.
pub open spec fn head_text(rc: (u32, u32)) -> Seq<char> {
    if rc == (1u32, 1u32) {
        root_name()
    } else if rc == (1u32, 2u32) {
        meta_name()
    } else {
        cell_text(rc)
    }
}

/// The segment of pair `i` of a path.
pub open spec fn segment_text(p: Path, i: int) -> Seq<char> {
    if i == 0 {
        head_text(p[0])
    } else {
        cell_text(p[i])
    }
}

/// The segments joined by `-`.
pub open spec fn join_dash(segs: Seq<Seq<char>>) -> Seq<char>
    decreases segs.len(),
{
    if segs.len() == 0 {
        Seq::empty()
    } else if segs.len() == 1 {
        segs[0]
    } else {
        join_dash(segs.drop_last()) + seq!['-'] + segs.last()
    }
}

/// The segments of the text of a path.
pub open spec fn address_segments(p: Path) -> Seq<Seq<char>> {
    Seq::new(p.len(), |i: int| segment_text(p, i))
}

/// The text of an address.
pub open spec fn address_text(p: Path) -> Seq<char> {
    join_dash(address_segments(p))
}

/// A path starts at one of the two named roots.
pub open spec fn rooted(p: Path) -> bool {
    p.len() >= 1 && (p[0] == (1u32, 1u32) || p[0] == (1u32, 2u32))
}

/// The segments of a text in canonical form: the name as it is, the cells
/// with their column letters in upper case.
pub open spec fn canonical_segments(segs: Seq<Seq<char>>) -> Seq<Seq<char>> {
    Seq::new(
        segs.len(),
        |i: int|
            if i == 0 {
                segs[0]
            } else {
                upper_text(segs[i])
            },
    )
}

/// The canonical form of a text: its column letters in upper case.
pub open spec fn canonical(t: Seq<char>) -> Seq<char> {
    join_dash(canonical_segments(split_dash(t)))
}

fn push_column(out: &mut Vec<char>, n: u32)
    ensures
        final(out)@ == old(out)@ + column_text(n as int),
    decreases n,
{
    if n == 0 {
        assert(old(out)@ + column_text(0) =~= old(out)@);
    } else {
        let q = (n - 1) / 26;
        let d = ((n - 1) % 26) as u8;
        push_column(out, q);
        out.push((d + 65u8) as char);
        proof {
            assert((d + 65u8) as char == upper_letter((n - 1) % 26 + 1));
            assert(final(out)@ =~= old(out)@ + column_text(n as int));
        }
    }
}

fn push_row(out: &mut Vec<char>, n: u32)
    ensures
        final(out)@ == old(out)@ + row_text(n as int),
    decreases n,
{
    if n == 0 {
        assert(old(out)@ + row_text(0) =~= old(out)@);
    } else {
        let d = (n % 10) as u8;
        push_row(out, n / 10);
        out.push((d + 48u8) as char);
        proof {
            assert((d + 48u8) as char == digit_char((n % 10) as int));
            assert(final(out)@ =~= old(out)@ + row_text(n as int));
        }
    }
}

fn push_cell(out: &mut Vec<char>, rc: (u32, u32))
    ensures
        final(out)@ == old(out)@ + cell_text(rc),
{
    push_column(out, rc.1);
    push_row(out, rc.0);
    proof {
        assert(final(out)@ =~= old(out)@ + cell_text(rc));
    }
}

fn push_head(out: &mut Vec<char>, rc: (u32, u32))
    ensures
        final(out)@ == old(out)@ + head_text(rc),
{
    if rc.0 == 1 && rc.1 == 1 {
        out.push('r');
        out.push('o');
        out.push('o');
        out.push('t');
        proof {
            assert(final(out)@ =~= old(out)@ + root_name());
        }
    } else if rc.0 == 1 && rc.1 == 2 {
        out.push('m');
        out.push('e');
        out.push('t');
        out.push('a');
        proof {
            assert(final(out)@ =~= old(out)@ + meta_name());
        }
    } else {
        push_cell(out, rc);
    }
}

proof fn join_one(segs: Seq<Seq<char>>)
    requires
        segs.len() >= 1,
    ensures
        join_dash(segs.take(1)) == segs[0],
{
    assert(segs.take(1).len() == 1);
    assert(segs.take(1)[0] == segs[0]);
}

proof fn join_next(segs: Seq<Seq<char>>, i: int)
    requires
        1 <= i < segs.len(),
    ensures
        join_dash(segs.take(i + 1)) == join_dash(segs.take(i)) + seq!['-'] + segs[i],
{
    assert(segs.take(i + 1).drop_last() =~= segs.take(i));
    assert(segs.take(i + 1).last() == segs[i]);
}

impl Coordinate {
    /// The text of the address: the name of its root, then one cell
    /// segment for every nested grid.
    pub fn to_text(&self) -> (s: String)
        ensures
            s@ == address_text(self@),
    {
        let pairs = self.row_cols();
        let ghost segs = address_segments(pairs@);
        let mut out: Vec<char> = Vec::new();
        push_head(&mut out, pairs[0]);
        proof {
            join_one(segs);
            assert(out@ =~= segs[0]);
        }
        let mut i: usize = 1;
        while i < pairs.len()
            invariant
                1 <= i <= pairs.len(),
                segs.len() == pairs.len(),
                forall|j: int| 1 <= j < segs.len() ==> #[trigger] segs[j] == cell_text(pairs@[j]),
                out@ == join_dash(segs.take(i as int)),
            decreases pairs.len() - i,
        {
            let ghost before = out@;
            out.push('-');
            push_cell(&mut out, pairs[i]);
            proof {
                join_next(segs, i as int);
                assert(out@ =~= before + seq!['-'] + segs[i as int]);
            }
            i += 1;
        }
        proof {
            assert(segs.take(pairs.len() as int) =~= segs);
        }
        string_of(&out)
    }
}

} // verus!
