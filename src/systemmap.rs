//! The system map: a text symbol table, one `<hex address> <kind> <name>`
//! line per symbol.
use crate::maps::{put, u64map_insert};
use crate::profile::Symbols;
use crate::text::{chars_of, string_from_chars};
use vstd::prelude::*;

verus! {

/// Characters with the Unicode `White_Space` property.
pub open spec fn is_space(c: char) -> bool {
    let n = c as u32;
    (0x09 <= n <= 0x0d) || n == 0x20 || n == 0x85 || n == 0xa0 || n == 0x1680 || (0x2000 <= n
        <= 0x200a) || n == 0x2028 || n == 0x2029 || n == 0x202f || n == 0x205f || n == 0x3000
}

fn space(c: char) -> (r: bool)
    ensures
        r == is_space(c),
{
    let n = c as u32;
    (0x09 <= n && n <= 0x0d) || n == 0x20 || n == 0x85 || n == 0xa0 || n == 0x1680 || (0x2000
        <= n && n <= 0x200a) || n == 0x2028 || n == 0x2029 || n == 0x202f || n == 0x205f || n
        == 0x3000
}

/// End of the line that starts at `i`: the next newline, or the end.
pub open spec fn line_end(s: Seq<char>, i: int) -> int
    decreases s.len() - i,
{
    if i >= s.len() {
        s.len() as int
    } else if s[i] == '\n' {
        i
    } else {
        line_end(s, i + 1)
    }
}

/// The lines from position `i` on; a final newline ends the last line.
pub open spec fn lines_from(s: Seq<char>, i: int) -> Seq<Seq<char>>
    decreases s.len() - i,
{
    if i < 0 || i >= s.len() {
        Seq::empty()
    } else {
        let j = line_end(s, i);
        if j < i || j >= s.len() {
            seq![s.subrange(i, s.len() as int)]
        } else {
            seq![s.subrange(i, j)] + lines_from(s, j + 1)
        }
    }
}

/// First position from `i` that is not white space.
pub open spec fn skip_space(l: Seq<char>, i: int) -> int
    decreases l.len() - i,
{
    if i >= l.len() {
        l.len() as int
    } else if is_space(l[i]) {
        skip_space(l, i + 1)
    } else {
        i
    }
}

/// First position from `i` that is white space.
pub open spec fn word_end(l: Seq<char>, i: int) -> int
    decreases l.len() - i,
{
    if i >= l.len() {
        l.len() as int
    } else if is_space(l[i]) {
        i
    } else {
        word_end(l, i + 1)
    }
}

/// The word that starts at or after `i`, as its bounds.
pub open spec fn next_word(l: Seq<char>, i: int) -> Option<(int, int)> {
    let a = skip_space(l, i);
    if a >= l.len() {
        None
    } else {
        Some((a, word_end(l, a)))
    }
}

/// The first three whitespace-separated words of a line.
pub open spec fn three_words(l: Seq<char>) -> Option<(Seq<char>, Seq<char>, Seq<char>)> {
    match next_word(l, 0) {
        None => None,
        Some((a0, a1)) => match next_word(l, a1) {
            None => None,
            Some((b0, b1)) => match next_word(l, b1) {
                None => None,
                Some((c0, c1)) => Some((l.subrange(a0, a1), l.subrange(b0, b1), l.subrange(c0, c1))),
            },
        },
    }
}

/// Value of a hexadecimal digit.
pub open spec fn hex_value(c: char) -> Option<nat> {
    if '0' <= c && c <= '9' {
        Some((c as nat - '0' as nat) as nat)
    } else if 'a' <= c && c <= 'f' {
        Some((c as nat - 'a' as nat + 10) as nat)
    } else if 'A' <= c && c <= 'F' {
        Some((c as nat - 'A' as nat + 10) as nat)
    } else {
        None
    }
}

/// Value of a string of hexadecimal digits.
pub open spec fn hex_digits(d: Seq<char>) -> Option<nat>
    decreases d.len(),
{
    if d.len() == 0 {
        Some(0)
    } else {
        match (hex_digits(d.drop_last()), hex_value(d.last())) {
            (Some(a), Some(b)) => Some(a * 16 + b),
            _ => None,
        }
    }
}

/// A hexadecimal address: an optional `+`, then at least one digit, with a
/// value that fits in 64 bits.
pub open spec fn parse_hex(w: Seq<char>) -> Option<u64> {
    let d = if w.len() > 0 && w[0] == '+' {
        w.drop_first()
    } else {
        w
    };
    if d.len() == 0 {
        None
    } else {
        match hex_digits(d) {
            Some(v) => if v <= u64::MAX {
                Some(v as u64)
            } else {
                None
            },
            None => None,
        }
    }
}

pub open spec fn is_kept_kind(k: Seq<char>) -> bool {
    k == seq!['d'] || k == seq!['D'] || k == seq!['t'] || k == seq!['T']
}

/// What one line contributes: nothing for a blank line or a symbol of
/// another kind, a name and address for a data or text symbol, or an error
/// for a line with fewer than three words or an address that is not
/// hexadecimal.
pub open spec fn line_entry(l: Seq<char>) -> Result<Option<(Seq<char>, u64)>, ()> {
    if skip_space(l, 0) >= l.len() {
        Ok(None)
    } else {
        match three_words(l) {
            None => Err(()),
            Some((addr, kind, name)) => if is_kept_kind(kind) {
                match parse_hex(addr) {
                    Some(v) => Ok(Some((name, v))),
                    None => Err(()),
                }
            } else {
                Ok(None)
            },
        }
    }
}

/// Entries after the lines `ls`, starting from `acc`.
pub open spec fn fold_lines(acc: Option<Seq<(Seq<char>, u64)>>, ls: Seq<Seq<char>>) -> Option<
    Seq<(Seq<char>, u64)>,
>
    decreases ls.len(),
{
    if ls.len() == 0 {
        acc
    } else {
        let next = match acc {
            None => None,
            Some(a) => match line_entry(ls[0]) {
                Err(_) => None,
                Ok(None) => Some(a),
                Ok(Some((n, v))) => Some(put(a, n, v)),
            },
        };
        fold_lines(next, ls.drop_first())
    }
}

/// Symbol table of a system map, or `None` when a line is malformed.
pub open spec fn system_map_entries(s: Seq<char>) -> Option<Seq<(Seq<char>, u64)>> {
    fold_lines(Some(Seq::empty()), lines_from(s, 0))
}

/// The system map is not a well-formed symbol table.
#[derive(Debug, Clone, Copy, PartialEq, Eq, Structural)]
pub enum SystemMapError {
    InvalidSystemMap,
}

proof fn lemma_fold_none(ls: Seq<Seq<char>>)
    ensures
        fold_lines(None, ls) is None,
    decreases ls.len(),
{
    if ls.len() > 0 {
        lemma_fold_none(ls.drop_first());
    }
}

fn skip_space_exec(l: &Vec<char>, i: usize) -> (r: usize)
    requires
        i <= l@.len(),
    ensures
        r == skip_space(l@, i as int),
        i <= r <= l@.len(),
{
    let mut k = i;
    while k < l.len() && space(l[k])
        invariant
            i <= k <= l@.len(),
            skip_space(l@, k as int) == skip_space(l@, i as int),
        decreases l@.len() - k,
    {
        k = k + 1;
    }
    k
}

fn word_end_exec(l: &Vec<char>, i: usize) -> (r: usize)
    requires
        i <= l@.len(),
    ensures
        r == word_end(l@, i as int),
        i <= r <= l@.len(),
{
    let mut k = i;
    while k < l.len() && !space(l[k])
        invariant
            i <= k <= l@.len(),
            word_end(l@, k as int) == word_end(l@, i as int),
        decreases l@.len() - k,
    {
        k = k + 1;
    }
    k
}

fn next_word_exec(l: &Vec<char>, i: usize) -> (r: Option<(usize, usize)>)
    requires
        i <= l@.len(),
    ensures
        match next_word(l@, i as int) {
            None => r is None,
            Some((a, b)) => r matches Some((x, y)) && x == a && y == b && y <= l@.len() && x
                <= y,
        },
{
    let a = skip_space_exec(l, i);
    if a >= l.len() {
        None
    } else {
        let b = word_end_exec(l, a);
        Some((a, b))
    }
}

fn hex_value_exec(c: char) -> (r: Option<u64>)
    ensures
        match hex_value(c) {
            Some(v) => r == Some(v as u64),
            None => r is None,
        },
{
    if '0' <= c && c <= '9' {
        Some((c as u64) - 48)
    } else if 'a' <= c && c <= 'f' {
        Some((c as u64) - 97 + 10)
    } else if 'A' <= c && c <= 'F' {
        Some((c as u64) - 65 + 10)
    } else {
        None
    }
}

proof fn lemma_hex_digits_grow(d: Seq<char>, k: int)
    requires
        0 <= k <= d.len(),
        hex_digits(d) is Some,
    ensures
        hex_digits(d.subrange(0, k)) is Some,
        hex_digits(d.subrange(0, k))->0 <= hex_digits(d)->0,
    decreases d.len(),
{
    if k < d.len() {
        assert(d.drop_last() == d.subrange(0, d.len() - 1));
        lemma_hex_digits_grow(d.drop_last(), k);
        assert(d.drop_last().subrange(0, k) == d.subrange(0, k));
    } else {
        assert(d.subrange(0, k) == d);
    }
}

/// Parses the hexadecimal address `l[from..to]`.
fn parse_hex_exec(l: &Vec<char>, from: usize, to: usize) -> (r: Option<u64>)
    requires
        from <= to <= l@.len(),
    ensures
        r == parse_hex(l@.subrange(from as int, to as int)),
{
    let ghost w = l@.subrange(from as int, to as int);
    let mut start = from;
    if start < to && l[start] == '+' {
        start = start + 1;
    }
    let ghost d = l@.subrange(start as int, to as int);
    assert(d == if w.len() > 0 && w[0] == '+' {
        w.drop_first()
    } else {
        w
    });
    if start == to {
        return None;
    }
    assert(parse_hex(w) == match hex_digits(d) {
        Some(v) => if v <= u64::MAX {
            Some(v as u64)
        } else {
            None
        },
        None => None,
    });
    let mut acc: u64 = 0;
    let mut k = start;
    while k < to
        invariant
            start <= k <= to <= l@.len(),
            d == l@.subrange(start as int, to as int),
            w == l@.subrange(from as int, to as int),
            parse_hex(w) == match hex_digits(d) {
                Some(v) => if v <= u64::MAX {
                    Some(v as u64)
                } else {
                    None
                },
                None => None,
            },
            hex_digits(l@.subrange(start as int, k as int)) == Some(acc as nat),
        decreases to - k,
    {
        let ghost p = l@.subrange(start as int, (k + 1) as int);
        assert(p.drop_last() == l@.subrange(start as int, k as int));
        assert(p.last() == l@[k as int]);
        match hex_value_exec(l[k]) {
            None => {
                proof {
                    assert(hex_digits(p) is None);
                    if hex_digits(d) is Some {
                        lemma_hex_digits_grow(d, (k + 1 - start) as int);
                        assert(d.subrange(0, (k + 1 - start) as int) == p);
                    }
                }
                return None;
            },
            Some(v) => {
                if acc > (u64::MAX - v) / 16 {
                    proof {
                        assert(hex_digits(p) == Some((acc * 16 + v) as nat));
                        assert(acc * 16 + v > u64::MAX) by (nonlinear_arith)
                            requires
                                acc > (u64::MAX - v) / 16,
                                v < 16,
                        ;
                        if hex_digits(d) is Some {
                            lemma_hex_digits_grow(d, (k + 1 - start) as int);
                            assert(d.subrange(0, (k + 1 - start) as int) == p);
                        }
                    }
                    return None;
                }
                assert(acc * 16 + v <= u64::MAX) by (nonlinear_arith)
                    requires
                        acc <= (u64::MAX - v) / 16,
                        v < 16,
                ;
                acc = acc * 16 + v;
            },
        }
        k = k + 1;
    }
    assert(l@.subrange(start as int, to as int) == d);
    Some(acc)
}

fn is_kept_kind_exec(l: &Vec<char>, from: usize, to: usize) -> (r: bool)
    requires
        from <= to <= l@.len(),
    ensures
        r == is_kept_kind(l@.subrange(from as int, to as int)),
{
    let ghost k = l@.subrange(from as int, to as int);
    if to - from != 1 {
        assert(k.len() != 1);
        assert(k != seq!['d'] && k != seq!['D'] && k != seq!['t'] && k != seq!['T']);
        return false;
    }
    let c = l[from];
    assert(k =~= seq![c]);
    proof {
        assert(seq!['d'][0] == 'd' && seq!['D'][0] == 'D' && seq!['t'][0] == 't' && seq!['T'][0]
            == 'T');
        assert(k[0] == c);
    }
    c == 'd' || c == 'D' || c == 't' || c == 'T'
}

fn line_entry_exec(l: &Vec<char>) -> (r: Result<Option<(String, u64)>, ()>)
    ensures
        match line_entry(l@) {
            Err(_) => r is Err,
            Ok(None) => r matches Ok(None),
            Ok(Some((n, v))) => r matches Ok(Some((m, w))) && m@ == n && w == v,
        },
{
    if skip_space_exec(l, 0) >= l.len() {
        return Ok(None);
    }
    let (a0, a1) = match next_word_exec(l, 0) {
        Some(w) => w,
        None => return Err(()),
    };
    let (b0, b1) = match next_word_exec(l, a1) {
        Some(w) => w,
        None => return Err(()),
    };
    let (c0, c1) = match next_word_exec(l, b1) {
        Some(w) => w,
        None => return Err(()),
    };
    if !is_kept_kind_exec(l, b0, b1) {
        return Ok(None);
    }
    match parse_hex_exec(l, a0, a1) {
        Some(v) => {
            let name = string_from_chars(slice_of(l, c0, c1).as_slice());
            Ok(Some((name, v)))
        },
        None => Err(()),
    }
}

fn slice_of(l: &Vec<char>, from: usize, to: usize) -> (r: Vec<char>)
    requires
        from <= to <= l@.len(),
    ensures
        r@ == l@.subrange(from as int, to as int),
{
    let mut r: Vec<char> = Vec::new();
    let mut k = from;
    while k < to
        invariant
            from <= k <= to <= l@.len(),
            r@ == l@.subrange(from as int, k as int),
        decreases to - k,
    {
        r.push(l[k]);
        k = k + 1;
    }
    r
}

fn line_end_exec(s: &Vec<char>, i: usize) -> (r: usize)
    requires
        i <= s@.len(),
    ensures
        r == line_end(s@, i as int),
        i <= r <= s@.len(),
{
    let mut k = i;
    while k < s.len() && s[k] != '\n'
        invariant
            i <= k <= s@.len(),
            line_end(s@, k as int) == line_end(s@, i as int),
        decreases s@.len() - k,
    {
        k = k + 1;
    }
    k
}

proof fn lemma_line_end_bounds(s: Seq<char>, i: int)
    requires
        0 <= i <= s.len(),
    ensures
        i <= line_end(s, i) <= s.len(),
    decreases s.len() - i,
{
    if i < s.len() && s[i] != '\n' {
        lemma_line_end_bounds(s, i + 1);
    }
}

/// Reads a system map. Lines that are blank, or that name a symbol of a
/// kind other than `d`, `D`, `t` or `T`, are passed over; a line with fewer
/// than three words, or a kept symbol whose address is not hexadecimal,
/// makes the whole map invalid.
pub fn parse_system_map(systemmap: &str) -> (r: Result<Symbols, SystemMapError>)
    ensures
        match system_map_entries(systemmap@) {
            Some(e) => r matches Ok(sym) && sym.entries() == e,
            None => r == Err::<Symbols, SystemMapError>(SystemMapError::InvalidSystemMap),
        },
{
    let s = chars_of(systemmap);
    let mut result = Symbols::new();
    let mut pos: usize = 0;
    while pos < s.len()
        invariant
            s@ == systemmap@,
            pos <= s@.len(),
            fold_lines(Some(result.entries()), lines_from(s@, pos as int)) == system_map_entries(
                s@,
            ),
        decreases s@.len() - pos,
    {
        let j = line_end_exec(&s, pos);
        let line = slice_of(&s, pos, j);
        let ghost ls = lines_from(s@, pos as int);
        let ghost rest = if j < s@.len() {
            lines_from(s@, j + 1)
        } else {
            Seq::<Seq<char>>::empty()
        };
        proof {
            assert(ls == seq![s@.subrange(pos as int, j as int)] + rest);
            assert(ls[0] == line@);
            assert(ls.drop_first() == rest);
        }
        match line_entry_exec(&line) {
            Err(_) => {
                proof {
                    lemma_fold_none(ls.drop_first());
                }
                return Err(SystemMapError::InvalidSystemMap);
            },
            Ok(None) => {},
            Ok(Some((name, address))) => {
                u64map_insert(&mut result.0, name, address);
            },
        }
        if j >= s.len() {
            proof {
                assert(rest.len() == 0);
                assert(fold_lines(Some(result.entries()), rest) == Some(result.entries()));
            }
            return Ok(result);
        }
        pos = j + 1;
    }
    proof {
        assert(lines_from(s@, pos as int) == Seq::<Seq<char>>::empty());
    }
    Ok(result)
}

} // verus!
