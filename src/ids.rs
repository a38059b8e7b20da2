use vstd::prelude::*;

verus! {

/// The characters with the Unicode White_Space property.
pub open spec fn white_space(c: char) -> bool {
    let u = c as u32;
    (9 <= u <= 13) || u == 32 || u == 0x85 || u == 0xa0 || u == 0x1680 || (0x2000 <= u <= 0x200a) || u == 0x2028
        || u == 0x2029 || u == 0x202f || u == 0x205f || u == 0x3000
}

/// Whether `c` is white space in the Unicode sense.
pub fn is_white_space(c: char) -> (r: bool)
    ensures
        r == white_space(c),
{
    let u = c as u32;
    (9 <= u && u <= 13) || u == 32 || u == 0x85 || u == 0xa0 || u == 0x1680 || (0x2000 <= u && u <= 0x200a)
        || u == 0x2028 || u == 0x2029 || u == 0x202f || u == 0x205f || u == 0x3000
}

/// A piece that is empty or holds only white space.
pub open spec fn blank(p: Seq<char>) -> bool {
    forall|i: int| 0 <= i < p.len() ==> white_space(#[trigger] p[i])
}

/// The pieces of `s` between commas, as `str::split(',')` gives them: one
/// more piece than there are commas.
pub open spec fn split_commas(s: Seq<char>) -> Seq<Seq<char>>
    decreases s.len(),
{
    if s.len() == 0 {
        seq![Seq::empty()]
    } else {
        let before = split_commas(s.drop_last());
        if s.last() == ',' {
            before.push(Seq::empty())
        } else {
            before.update(before.len() - 1, before.last().push(s.last()))
        }
    }
}

pub open spec fn is_digit(c: char) -> bool {
    '0' <= c <= '9'
}

pub open spec fn digit_value(c: char) -> int {
    (c as u32) - ('0' as u32)
}

/// The value of a run of decimal digits.
pub open spec fn digits_value(d: Seq<char>) -> int
    decreases d.len(),
{
    if d.len() == 0 {
        0
    } else {
        digits_value(d.drop_last()) * 10 + digit_value(d.last())
    }
}

pub open spec fn all_digits(d: Seq<char>) -> bool {
    forall|i: int| 0 <= i < d.len() ==> is_digit(#[trigger] d[i])
}

/// What `i32::from_str` gives for `p`: an optional sign, then one or more
/// decimal digits, whose value must fit in an `i32`.
pub open spec fn parse_i32_spec(p: Seq<char>) -> Option<i32> {
    let negative = p.len() > 0 && p[0] == '-';
    let signed = p.len() > 0 && (p[0] == '-' || p[0] == '+');
    let d = if signed {
        p.drop_first()
    } else {
        p
    };
    let v = if negative {
        -digits_value(d)
    } else {
        digits_value(d)
    };
    if d.len() > 0 && all_digits(d) && i32::MIN <= v <= i32::MAX {
        Some(v as i32)
    } else {
        None
    }
}

/// The ids of a list of pieces: blank pieces are skipped, and one piece that
/// is not an `i32` spoils the whole list.
pub open spec fn ids_from_pieces(ps: Seq<Seq<char>>) -> Option<Seq<i32>>
    decreases ps.len(),
{
    if ps.len() == 0 {
        Some(Seq::empty())
    } else {
        match ids_from_pieces(ps.drop_last()) {
            None => None,
            Some(v) => if blank(ps.last()) {
                Some(v)
            } else {
                match parse_i32_spec(ps.last()) {
                    None => None,
                    Some(x) => Some(v.push(x)),
                }
            },
        }
    }
}

proof fn lemma_digits_value_nonneg(d: Seq<char>)
    requires
        all_digits(d),
    ensures
        digits_value(d) >= 0,
    decreases d.len(),
{
    if d.len() > 0 {
        assert(is_digit(d[d.len() - 1]));
        lemma_digits_value_nonneg(d.drop_last());
    }
}

const LIMIT: i64 = 2147483648;

/// Parses a decimal `i32` as `i32::from_str` does.
pub fn parse_i32(p: &Vec<char>) -> (r: Option<i32>)
    ensures
        r == parse_i32_spec(p@),
{
    let len = p.len();
    let negative = len > 0 && p[0] == '-';
    let signed = len > 0 && (p[0] == '-' || p[0] == '+');
    let start: usize = if signed {
        1
    } else {
        0
    };
    let ghost d = if signed {
        p@.drop_first()
    } else {
        p@
    };
    proof {
        assert(d =~= p@.subrange(start as int, len as int));
    }
    if start >= len {
        return None;
    }
    // `acc` is the value of the digits so far, or `LIMIT + 1` once that value
    // exceeds `LIMIT`.
    let mut acc: i64 = 0;
    let mut i: usize = start;
    while i < len
        invariant
            start <= i <= len,
            len == p.len(),
            d == p@.subrange(start as int, len as int),
            !all_digits(d) ==> parse_i32_spec(p@) is None,
            all_digits(d.take(i - start)),
            0 <= acc <= LIMIT + 1,
            acc <= LIMIT ==> acc == digits_value(d.take(i - start)),
            acc > LIMIT ==> digits_value(d.take(i - start)) > LIMIT,
        decreases len - i,
    {
        let c = p[i];
        let ghost pre = d.take(i - start);
        proof {
            assert(d.take(i - start + 1).drop_last() =~= pre);
            assert(d.take(i - start + 1).last() == c);
        }
        if !('0' <= c && c <= '9') {
            proof {
                assert(d[i - start] == c);
                assert(!is_digit(d[i - start]));
                assert(!all_digits(d));
            }
            return None;
        }
        let v = (c as u32 - '0' as u32) as i64;
        proof {
            lemma_digits_value_nonneg(pre);
            assert forall|j: int| 0 <= j < i - start + 1 implies is_digit(#[trigger] d.take(i - start + 1)[j]) by {
                if j < i - start {
                    assert(d.take(i - start + 1)[j] == pre[j]);
                }
            }
        }
        if acc > LIMIT {
            acc = LIMIT + 1;
        } else {
            let next = acc * 10 + v;
            if next > LIMIT {
                acc = LIMIT + 1;
            } else {
                acc = next;
            }
        }
        i = i + 1;
    }
    proof {
        assert(d.take(len - start) =~= d);
        lemma_digits_value_nonneg(d);
    }
    if acc > LIMIT {
        None
    } else if negative {
        Some((-acc) as i32)
    } else if acc == LIMIT {
        None
    } else {
        Some(acc as i32)
    }
}

/// Whether a piece is empty or holds only white space.
fn is_blank(p: &Vec<char>) -> (r: bool)
    ensures
        r == blank(p@),
{
    let mut i: usize = 0;
    while i < p.len()
        invariant
            i <= p.len(),
            forall|j: int| 0 <= j < i ==> white_space(#[trigger] p@[j]),
        decreases p.len() - i,
    {
        if !is_white_space(p[i]) {
            proof {
                assert(!white_space(p@[i as int]));
            }
            return false;
        }
        i += 1;
    }
    true
}

/// Reads a comma-separated list of ids. Pieces that are empty or white space
/// are skipped; any other piece must be an `i32` exactly as `i32::from_str`
/// reads it (no surrounding white space), else the whole list is refused.
pub fn parse_id_list(text: &str) -> (r: Result<Vec<i32>, ()>)
    ensures
        match r {
            Ok(v) => ids_from_pieces(split_commas(text@)) == Some(v@),
            Err(_) => ids_from_pieces(split_commas(text@)) is None,
        },
{
    let n = text.unicode_len();
    let mut out: Vec<i32> = Vec::new();
    let mut failed = false;
    let mut cur: Vec<char> = Vec::new();
    let ghost mut done: Seq<Seq<char>> = Seq::empty();
    let mut i: usize = 0;
    while i < n
        invariant
            i <= n,
            n == text@.len(),
            split_commas(text@.take(i as int)) == done.push(cur@),
            failed ==> ids_from_pieces(done) is None,
            !failed ==> ids_from_pieces(done) == Some(out@),
        decreases n - i,
    {
        let c = text.get_char(i);
        proof {
            assert(text@.take(i as int + 1).drop_last() =~= text@.take(i as int));
            assert(text@.take(i as int + 1).last() == c);
        }
        if c == ',' {
            let ghost old_done = done;
            proof {
                done = done.push(cur@);
                assert(done.drop_last() =~= old_done);
            }
            if !failed && !is_blank(&cur) {
                match parse_i32(&cur) {
                    Some(x) => out.push(x),
                    None => failed = true,
                }
            }
            proof {
                assert(done.last() == cur@);
            }
            cur = Vec::new();
            proof {
                assert(done.push(cur@) =~= done.push(Seq::empty()));
            }
        } else {
            cur.push(c);
            proof {
                let before = split_commas(text@.take(i as int));
                assert(before.update(before.len() - 1, before.last().push(c)) =~= done.push(cur@));
            }
        }
        i += 1;
    }
    let ghost old_done = done;
    proof {
        assert(text@.take(n as int) =~= text@);
        done = done.push(cur@);
        assert(done.drop_last() =~= old_done);
    }
    if !failed && !is_blank(&cur) {
        match parse_i32(&cur) {
            Some(x) => out.push(x),
            None => failed = true,
        }
    }
    if failed {
        Err(())
    } else {
        Ok(out)
    }
}


/// The ids of an already decoded text.
pub open spec fn ids_of_text(t: Seq<char>) -> Option<Seq<i32>> {
    ids_from_pieces(split_commas(t))
}

/// The ids of a percent-encoded text: `None` where decoding fails or a piece
/// is not an id.
pub open spec fn parsed_ids(raw: Seq<char>) -> Option<Seq<i32>> {
    match url_decoded(raw) {
        None => None,
        Some(t) => ids_of_text(t),
    }
}

/// The text that percent-decoding `s` gives, or `None` where the decoded
/// bytes are not UTF-8.
pub uninterp spec fn url_decoded(s: Seq<char>) -> Option<Seq<char>>;

/// Relies on `urlencoding::decode`: it percent-decodes `s` and checks that
/// the bytes are UTF-8; a text without `%` comes back as it is.
#[verifier::external_body]
fn url_decode(s: &str) -> (r: Option<String>)
    ensures
        r is Some ==> url_decoded(s@) == Some(r->0@),
        r is None ==> url_decoded(s@) is None,
        !s@.contains('%') ==> r is Some && r->0@ == s@,
{
    urlencoding::decode(s).ok().map(|d| d.into_owned())
}

/// Reads a percent-encoded, comma-separated list of player ids. Any
/// malformed id refuses the whole list.
pub fn parse_ids(ids: &str) -> (r: Result<Vec<i32>, ()>)
    ensures
        match r {
            Ok(v) => parsed_ids(ids@) == Some(v@),
            Err(_) => parsed_ids(ids@) is None,
        },
        !ids@.contains('%') ==> parsed_ids(ids@) == ids_of_text(ids@),
{
    match url_decode(ids) {
        None => Err(()),
        Some(text) => parse_id_list(text.as_str()),
    }
}

/// A list with one piece that is neither blank nor an `i32` is refused as a
/// whole: no partial list of ids comes out of it.
pub proof fn lemma_malformed_piece_refuses_list(ps: Seq<Seq<char>>, k: int)
    requires
        0 <= k < ps.len(),
        !blank(ps[k]),
        parse_i32_spec(ps[k]) is None,
    ensures
        ids_from_pieces(ps) is None,
    decreases ps.len(),
{
    if k < ps.len() - 1 {
        lemma_malformed_piece_refuses_list(ps.drop_last(), k);
    }
}

} // verus!
