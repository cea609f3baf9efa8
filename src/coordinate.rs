use vstd::prelude::*;
use crate::error::MatrixError;

verus! {

/// Space, tab and carriage return separate the fields of a line.
pub open spec fn is_space(b: u8) -> bool {
    b == 32 || b == 9 || b == 13
}

/// The word `cur` when it is not empty, as a list of at most one field.
pub open spec fn flush(cur: Seq<u8>) -> Seq<Seq<u8>> {
    if cur.len() > 0 { seq![cur] } else { Seq::empty() }
}

/// The fields of `s` scanned left to right, `cur` being the word read so
/// far: a separator ends the current word, any other byte extends it.
pub open spec fn fields_from(s: Seq<u8>, cur: Seq<u8>) -> Seq<Seq<u8>>
    decreases s.len(),
{
    if s.len() == 0 {
        flush(cur)
    } else if is_space(s[0]) {
        flush(cur) + fields_from(s.drop_first(), Seq::empty())
    } else {
        fields_from(s.drop_first(), cur.push(s[0]))
    }
}

/// The whitespace-separated fields of a line.
pub open spec fn fields(s: Seq<u8>) -> Seq<Seq<u8>> {
    fields_from(s, Seq::empty())
}

/// Splits a line into its whitespace-separated fields.
pub fn split_fields(line: &Vec<u8>) -> (r: Vec<Vec<u8>>)
    ensures
        r@.len() == fields(line@).len(),
        forall|i: int| 0 <= i < r@.len() ==> (#[trigger] r@[i])@ == fields(line@)[i],
{
    let ghost s = line@;
    let mut done: Vec<Vec<u8>> = Vec::new();
    let ghost done_v: Seq<Seq<u8>> = Seq::empty();
    let mut cur: Vec<u8> = Vec::new();
    let mut i: usize = 0;
    assert(s.skip(0) =~= s);
    assert(cur@ =~= Seq::<u8>::empty());
    assert(fields(s) =~= done_v + fields_from(s.skip(0), cur@));
    while i < line.len()
        invariant
            s == line@,
            i <= s.len(),
            done@.len() == done_v.len(),
            forall|j: int| 0 <= j < done_v.len() ==> (#[trigger] done@[j])@ == done_v[j],
            fields(s) == done_v + fields_from(s.skip(i as int), cur@),
        decreases s.len() - i,
    {
        let b = line[i];
        assert(s.skip(i as int).drop_first() =~= s.skip(i + 1));
        if b == 32 || b == 9 || b == 13 {
            if cur.len() > 0 {
                proof {
                    done_v = done_v.push(cur@);
                    assert(flush(cur@) == seq![cur@]);
                }
                done.push(cur);
                cur = Vec::new();
            } else {
                assert(flush(cur@) =~= Seq::<Seq<u8>>::empty());
                assert(cur@ =~= Seq::<u8>::empty());
            }
            proof {
                assert(fields(s) =~= done_v + fields_from(s.skip(i + 1), cur@));
            }
        } else {
            cur.push(b);
        }
        i = i + 1;
    }
    assert(s.skip(i as int) =~= Seq::<u8>::empty());
    if cur.len() > 0 {
        proof {
            done_v = done_v.push(cur@);
        }
        done.push(cur);
    }
    assert(fields(s) =~= done_v);
    done
}

/// An ASCII decimal digit.
pub open spec fn is_digit(b: u8) -> bool {
    48 <= b <= 57
}

/// The number that the decimal digits `s` spell.
pub open spec fn decimal_value(s: Seq<u8>) -> nat
    decreases s.len(),
{
    if s.len() == 0 {
        0
    } else {
        decimal_value(s.drop_last()) * 10 + (s.last() - 48) as nat
    }
}

/// `s` is a non-empty run of decimal digits whose value fits a `u64`.
pub open spec fn is_decimal(s: Seq<u8>) -> bool {
    &&& s.len() > 0
    &&& forall|i: int| 0 <= i < s.len() ==> is_digit(#[trigger] s[i])
    &&& decimal_value(s) <= u64::MAX
}

proof fn lemma_decimal_grows(s: Seq<u8>, i: int)
    requires
        0 <= i <= s.len(),
        forall|k: int| 0 <= k < s.len() ==> is_digit(#[trigger] s[k]),
    ensures
        decimal_value(s.take(i)) <= decimal_value(s),
    decreases s.len() - i,
{
    if i < s.len() {
        lemma_decimal_grows(s, i + 1);
        assert(s.take(i + 1).drop_last() =~= s.take(i));
    } else {
        assert(s.take(i) =~= s);
    }
}

/// Reads a non-negative decimal number; `None` when `s` is empty, holds a
/// byte that is no digit, or spells a number past `u64::MAX`.
pub fn parse_decimal(s: &Vec<u8>) -> (r: Option<u64>)
    ensures
        r is Some <==> is_decimal(s@),
        r matches Some(v) ==> v == decimal_value(s@),
{
    let n = s.len();
    if n == 0 {
        return None;
    }
    let mut v: u64 = 0;
    let mut i: usize = 0;
    while i < n
        invariant
            n == s@.len(),
            i <= n,
            forall|k: int| 0 <= k < i ==> is_digit(#[trigger] s@[k]),
            v == decimal_value(s@.take(i as int)),
        decreases n - i,
    {
        let b = s[i];
        assert(s@.take(i + 1).drop_last() =~= s@.take(i as int));
        if b < 48 || b > 57 {
            return None;
        }
        let d = (b - 48) as u64;
        if v > (u64::MAX - d) / 10 {
            proof {
                assert(decimal_value(s@.take(i + 1)) == v * 10 + d);
                assert(decimal_value(s@.take(i + 1)) > u64::MAX) by (nonlinear_arith)
                    requires
                        v > (u64::MAX - d) / 10,
                        decimal_value(s@.take(i + 1)) == v * 10 + d,
                        d <= 9,
                ;
                if forall|k: int| 0 <= k < n ==> is_digit(#[trigger] s@[k]) {
                    lemma_decimal_grows(s@, i + 1);
                }
            }
            return None;
        }
        proof {
            assert(v * 10 + d <= u64::MAX) by (nonlinear_arith)
                requires
                    v <= (u64::MAX - d) / 10,
                    d <= 9,
            ;
        }
        v = v * 10 + d;
        i = i + 1;
    }
    assert(s@.take(n as int) =~= s@);
    Some(v)
}


/// A line that carries data: it has a field and is no `%` comment.
pub open spec fn is_content(line: Seq<u8>) -> bool {
    fields(line).len() > 0 && line[0] != 37
}

/// The lines of `lines` that carry data, in order.
pub open spec fn content_lines(lines: Seq<Seq<u8>>) -> Seq<Seq<u8>>
    decreases lines.len(),
{
    if lines.len() == 0 {
        Seq::empty()
    } else {
        content_lines(lines.drop_last()) + if is_content(lines.last()) {
            seq![lines.last()]
        } else {
            Seq::empty()
        }
    }
}

/// The size line `nrow ncol nnz`: three decimal fields.
pub open spec fn header_spec(line: Seq<u8>) -> Option<(u64, u64, u64)> {
    let f = fields(line);
    if f.len() == 3 && is_decimal(f[0]) && is_decimal(f[1]) && is_decimal(f[2]) {
        Some((decimal_value(f[0]) as u64, decimal_value(f[1]) as u64, decimal_value(f[2]) as u64))
    } else {
        None
    }
}

/// An entry line `row col value` of an `nrow` by `ncol` matrix: 1-based
/// decimal indices inside the matrix, and a value field. Gives the 0-based
/// indices and the value field.
pub open spec fn entry_spec(line: Seq<u8>, nrow: u64, ncol: u64) -> Option<(u64, u64, Seq<u8>)> {
    let f = fields(line);
    if f.len() == 3 && is_decimal(f[0]) && is_decimal(f[1]) && 1 <= decimal_value(f[0]) <= nrow && 1
        <= decimal_value(f[1]) <= ncol {
        Some(((decimal_value(f[0]) - 1) as u64, (decimal_value(f[1]) - 1) as u64, f[2]))
    } else {
        None
    }
}

/// Reads the size line of a coordinate list; `MalformedSource` when it is
/// not three decimal numbers.
pub fn parse_header(line: &Vec<u8>) -> (r: Result<(u64, u64, u64), MatrixError>)
    ensures
        header_spec(line@) matches Some(h) ==> r == Ok::<(u64, u64, u64), MatrixError>(h),
        header_spec(line@) is None ==> r == Err::<(u64, u64, u64), MatrixError>(MatrixError::MalformedSource),
{
    let f = split_fields(line);
    if f.len() != 3 {
        return Err(MatrixError::MalformedSource);
    }
    let a = parse_decimal(&f[0]);
    let b = parse_decimal(&f[1]);
    let c = parse_decimal(&f[2]);
    match (a, b, c) {
        (Some(a), Some(b), Some(c)) => Ok((a, b, c)),
        _ => Err(MatrixError::MalformedSource),
    }
}

/// Reads an entry line of an `nrow` by `ncol` coordinate list into 0-based
/// indices and the value field; `MalformedSource` when it is not two 1-based
/// indices inside the matrix followed by a value field.
pub fn parse_entry(line: &Vec<u8>, nrow: u64, ncol: u64) -> (r: Result<(u64, u64, Vec<u8>), MatrixError>)
    ensures
        entry_spec(line@, nrow, ncol) is None ==> r == Err::<(u64, u64, Vec<u8>), MatrixError>(
            MatrixError::MalformedSource,
        ),
        entry_spec(line@, nrow, ncol) matches Some(e) ==> (r matches Ok(v) && v.0 == e.0 && v.1 == e.1 && v.2@ == e.2),
{
    let mut f = split_fields(line);
    if f.len() != 3 {
        return Err(MatrixError::MalformedSource);
    }
    let ghost fv = fields(line@);
    let row = parse_decimal(&f[0]);
    let col = parse_decimal(&f[1]);
    match (row, col) {
        (Some(row), Some(col)) => {
            if row < 1 || row > nrow || col < 1 || col > ncol {
                return Err(MatrixError::MalformedSource);
            }
            let value = f.pop().unwrap();
            assert(value@ == fv[2]);
            Ok((row - 1, col - 1, value))
        },
        _ => Err(MatrixError::MalformedSource),
    }
}

/// A coordinate list read from text: its shape, and for each entry its
/// 0-based position and its value field.
#[derive(Clone, Debug)]
pub struct CoordinateList {
    pub nrow: u64,
    pub ncol: u64,
    pub nnz: u64,
    pub positions: Vec<(u64, u64)>,
    pub values: Vec<Vec<u8>>,
}

/// The bytes of each line.
pub open spec fn line_views(lines: Seq<Vec<u8>>) -> Seq<Seq<u8>> {
    lines.map_values(|l: Vec<u8>| l@)
}

/// The text parses: its first data line is a size line, every later data
/// line is an entry inside the matrix, and there are as many entries as the
/// size line says.
pub open spec fn parses(lines: Seq<Seq<u8>>) -> bool {
    let c = content_lines(lines);
    &&& c.len() > 0
    &&& header_spec(c[0]) is Some
    &&& forall|k: int| 1 <= k < c.len() ==> (#[trigger] entry_spec(
        c[k],
        header_spec(c[0]).unwrap().0,
        header_spec(c[0]).unwrap().1,
    )) is Some
    &&& c.len() - 1 == header_spec(c[0]).unwrap().2
}

proof fn lemma_content_prefix(lines: Seq<Seq<u8>>, i: int)
    requires
        0 <= i <= lines.len(),
    ensures
        content_lines(lines.take(i)).len() <= content_lines(lines).len(),
        forall|k: int| 0 <= k < content_lines(lines.take(i)).len() ==> #[trigger] content_lines(lines.take(i))[k]
            == content_lines(lines)[k],
    decreases lines.len() - i,
{
    if i < lines.len() {
        lemma_content_prefix(lines, i + 1);
        assert(lines.take(i + 1).drop_last() =~= lines.take(i));
        let a = content_lines(lines.take(i));
        let b = content_lines(lines.take(i + 1));
        assert(b == a + if is_content(lines[i]) { seq![lines[i]] } else { Seq::<Seq<u8>>::empty() });
        assert forall|k: int| 0 <= k < a.len() implies #[trigger] a[k] == content_lines(lines)[k] by {
            assert(a[k] == b[k]);
        }
    } else {
        assert(lines.take(i) =~= lines);
    }
}

/// What reading the data lines `c` leaves: the size line, once one was
/// read, and the entries of the later lines.
pub open spec fn scanned(
    c: Seq<Seq<u8>>,
    header: Option<(u64, u64, u64)>,
    positions: Seq<(u64, u64)>,
    values: Seq<Vec<u8>>,
) -> bool {
    &&& header is None <==> c.len() == 0
    &&& header is None ==> positions.len() == 0 && values.len() == 0
    &&& header matches Some(h) ==> {
        &&& header_spec(c[0]) == Some(h)
        &&& positions.len() == c.len() - 1
        &&& values.len() == c.len() - 1
        &&& forall|k: int| 0 <= k < positions.len() ==> {
            let e = #[trigger] entry_spec(c[k + 1], h.0, h.1);
            &&& e is Some
            &&& positions[k] == (e.unwrap().0, e.unwrap().1)
            &&& values[k]@ == e.unwrap().2
        }
    }
}

/// Reads a coordinate list: `%` comment lines and blank lines are skipped,
/// the first other line gives `nrow ncol nnz`, and each later one an entry.
/// Fails with `MalformedSource` when the text does not parse.
pub fn parse_coordinates(lines: &Vec<Vec<u8>>) -> (r: Result<CoordinateList, MatrixError>)
    ensures
        !parses(line_views(lines@)) ==> r is Err && r == Err::<CoordinateList, MatrixError>(MatrixError::MalformedSource),
        parses(line_views(lines@)) ==> (r matches Ok(l) && {
            let c = content_lines(line_views(lines@));
            let h = header_spec(c[0]).unwrap();
            &&& (l.nrow, l.ncol, l.nnz) == h
            &&& l.positions@.len() == c.len() - 1
            &&& l.values@.len() == c.len() - 1
            &&& forall|k: int| 0 <= k < l.positions@.len() ==> {
                let e = #[trigger] entry_spec(c[k + 1], h.0, h.1).unwrap();
                &&& l.positions@[k] == (e.0, e.1)
                &&& l.values@[k]@ == e.2
            }
        }),
{
    let ghost all = line_views(lines@);
    let mut header: Option<(u64, u64, u64)> = None;
    let mut positions: Vec<(u64, u64)> = Vec::new();
    let mut values: Vec<Vec<u8>> = Vec::new();
    let mut i: usize = 0;
    while i < lines.len()
        invariant
            all == line_views(lines@),
            i <= lines@.len(),
            scanned(content_lines(all.take(i as int)), header, positions@, values@),
        decreases lines@.len() - i,
    {
        let line = &lines[i];
        proof {
            assert(all.take(i + 1).drop_last() =~= all.take(i as int));
            assert(all.take(i + 1).last() == line@);
            lemma_content_prefix(all, i + 1);
        }
        let ghost c0 = content_lines(all.take(i as int));
        let ghost c = content_lines(all.take(i + 1));
        let f = split_fields(line);
        if f.len() == 0 || line[0] == 37 {
            assert(!is_content(line@));
            assert(c =~= c0);
            assert(scanned(c, header, positions@, values@));
        } else {
            assert(is_content(line@));
            assert(c =~= c0.push(line@));
            match header {
                None => {
                    match parse_header(line) {
                        Ok(h) => {
                            header = Some(h);
                            assert(c.len() == 1);
                            assert(c[0] == line@);
                            assert(header_spec(c[0]) == Some(h));
                            assert(scanned(c, header, positions@, values@));
                        },
                        Err(e) => {
                            assert(c[0] == line@);
                            return Err(e);
                        },
                    }
                },
                Some(h) => {
                    match parse_entry(line, h.0, h.1) {
                        Ok((row, col, value)) => {
                            positions.push((row, col));
                            values.push(value);
                            proof {
                                assert(c[0] == c0[0]);
                                assert forall|k: int| 0 <= k < positions@.len() implies {
                                    let e = #[trigger] entry_spec(c[k + 1], h.0, h.1);
                                    &&& e is Some
                                    &&& positions@[k] == (e.unwrap().0, e.unwrap().1)
                                    &&& values@[k]@ == e.unwrap().2
                                } by {
                                    if k + 1 < c0.len() {
                                        assert(c[k + 1] == c0[k + 1]);
                                    } else {
                                        assert(c[k + 1] == line@);
                                    }
                                }
                                assert(scanned(c, header, positions@, values@));
                            }
                        },
                        Err(e) => {
                            assert(c[c.len() - 1] == line@);
                            assert(c[0] == content_lines(all.take(i as int))[0]);
                            assert(entry_spec(content_lines(all)[c.len() - 1], h.0, h.1) is None);
                            return Err(e);
                        },
                    }
                },
            }
        }
        i = i + 1;
    }
    assert(all.take(lines@.len() as int) =~= all);
    match header {
        None => Err(MatrixError::MalformedSource),
        Some(h) => {
            let ghost c = content_lines(all);
            if positions.len() as u64 != h.2 {
                return Err(MatrixError::MalformedSource);
            }
            assert forall|k: int| 1 <= k < c.len() implies (#[trigger] entry_spec(
                c[k],
                header_spec(c[0]).unwrap().0,
                header_spec(c[0]).unwrap().1,
            )) is Some by {
                let j = k - 1;
                assert(entry_spec(c[j + 1], h.0, h.1) is Some);
            }
            Ok(CoordinateList { nrow: h.0, ncol: h.1, nnz: h.2, positions, values })
        },
    }
}

} // verus!
