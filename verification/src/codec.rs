//! Comma-separated rendering of log records, and its inverse.
//!
//! A record is one line of three fields: title, end timestamp, duration.
//! A field that contains a comma, a double quote, a carriage return or a
//! line feed is written between double quotes, with every double quote
//! inside it doubled; any other field is written as-is. The duration field
//! is the canonical decimal digit string, which never needs quoting.
//!
//! [`encode_record_spec`] says exactly which bytes [`serialize_record`]
//! produces, [`parse_record_spec`] says exactly what [`parse_record`]
//! accepts, and [`lemma_record_round_trip`] proves that every encoded record
//! parses back to the fields it was made from.

use vstd::prelude::*;

use crate::numeral::{all_digits, dec_rep, digits_val, lemma_dec_rep_val, parse_u64, u64_to_bytes};
use crate::record::LogRecord;

verus! {

/// The field delimiter, `','`.
pub const COMMA: u8 = 0x2c;

/// The quote character, `'"'`.
pub const QUOTE: u8 = 0x22;

/// Carriage return.
pub const CR: u8 = 0x0d;

/// Line feed.
pub const LF: u8 = 0x0a;

/// Whether `b` forces the field holding it to be quoted.
pub open spec fn is_special(b: u8) -> bool {
    b == COMMA || b == QUOTE || b == CR || b == LF
}

/// Whether the field `f` must be written between quotes.
pub open spec fn needs_quoting(f: Seq<u8>) -> bool {
    exists|i: int| 0 <= i < f.len() && is_special(f[i])
}

/// `f` with every double quote doubled.
pub open spec fn escape_quotes(f: Seq<u8>) -> Seq<u8>
    decreases f.len(),
{
    if f.len() == 0 {
        Seq::empty()
    } else {
        (if f[0] == QUOTE {
            seq![QUOTE, QUOTE]
        } else {
            seq![f[0]]
        }) + escape_quotes(f.drop_first())
    }
}

/// How one field is written: quoted and escaped when it holds a special
/// byte, verbatim otherwise.
pub open spec fn encode_field(f: Seq<u8>) -> Seq<u8> {
    if needs_quoting(f) {
        seq![QUOTE] + escape_quotes(f) + seq![QUOTE]
    } else {
        f
    }
}

/// The full line (without terminator) for a record with the given title,
/// end timestamp and duration.
pub open spec fn encode_record_spec(title: Seq<u8>, timestamp: Seq<u8>, duration: nat) -> Seq<u8> {
    encode_field(title) + seq![COMMA] + encode_field(timestamp) + seq![COMMA] + dec_rep(duration)
}

/// Appending one byte to a field extends its escaped form at the end.
proof fn lemma_escape_push(s: Seq<u8>, b: u8)
    ensures
        escape_quotes(s.push(b)) == escape_quotes(s) + (if b == QUOTE {
            seq![QUOTE, QUOTE]
        } else {
            seq![b]
        }),
    decreases s.len(),
{
    if s.len() == 0 {
        assert(s.push(b) =~= seq![b]);
        assert(seq![b].drop_first() =~= Seq::<u8>::empty());
        assert(escape_quotes(Seq::<u8>::empty()) == Seq::<u8>::empty());
        assert(escape_quotes(s) == Seq::<u8>::empty());
        assert(escape_quotes(seq![b]) =~= (if b == QUOTE {
            seq![QUOTE, QUOTE]
        } else {
            seq![b]
        }));
        assert(escape_quotes(s.push(b)) =~= escape_quotes(s) + (if b == QUOTE {
            seq![QUOTE, QUOTE]
        } else {
            seq![b]
        }));
    } else {
        assert(s.push(b).drop_first() =~= s.drop_first().push(b));
        lemma_escape_push(s.drop_first(), b);
        assert(escape_quotes(s.push(b)) =~= escape_quotes(s) + (if b == QUOTE {
            seq![QUOTE, QUOTE]
        } else {
            seq![b]
        }));
    }
}

/// Whether the field must be quoted, decided byte by byte.
fn field_needs_quoting(f: &Vec<u8>) -> (r: bool)
    ensures
        r == needs_quoting(f@),
{
    let mut i: usize = 0;
    while i < f.len()
        invariant
            0 <= i <= f@.len(),
            forall|j: int| 0 <= j < i ==> !is_special(f@[j]),
        decreases f@.len() - i,
    {
        let b = f[i];
        if b == COMMA || b == QUOTE || b == CR || b == LF {
            assert(is_special(f@[i as int]));
            return true;
        }
        i = i + 1;
    }
    false
}

/// Appends the encoded form of `f` to `out`.
fn write_field(out: &mut Vec<u8>, f: &Vec<u8>)
    ensures
        final(out)@ == old(out)@ + encode_field(f@),
{
    let ghost base = out@;
    if field_needs_quoting(f) {
        out.push(QUOTE);
        let mut i: usize = 0;
        while i < f.len()
            invariant
                0 <= i <= f@.len(),
                out@ == base + seq![QUOTE] + escape_quotes(f@.take(i as int)),
            decreases f@.len() - i,
        {
            let b = f[i];
            proof {
                assert(f@.take(i as int + 1) =~= f@.take(i as int).push(f@[i as int]));
                lemma_escape_push(f@.take(i as int), f@[i as int]);
            }
            if b == QUOTE {
                out.push(QUOTE);
                out.push(QUOTE);
            } else {
                out.push(b);
            }
            proof {
                assert(out@ =~= base + seq![QUOTE] + escape_quotes(f@.take(i as int + 1)));
            }
            i = i + 1;
        }
        out.push(QUOTE);
        proof {
            assert(f@.take(f@.len() as int) =~= f@);
            assert(out@ =~= base + encode_field(f@));
        }
    } else {
        let mut i: usize = 0;
        while i < f.len()
            invariant
                0 <= i <= f@.len(),
                out@ == base + f@.take(i as int),
            decreases f@.len() - i,
        {
            let b = f[i];
            out.push(b);
            proof {
                assert(out@ =~= base + f@.take(i as int + 1));
            }
            i = i + 1;
        }
        proof {
            assert(f@.take(f@.len() as int) =~= f@);
            assert(out@ =~= base + encode_field(f@));
        }
    }
}

/// Renders `rec` as its log line, without the line terminator.
pub fn serialize_record(rec: &LogRecord) -> (v: Vec<u8>)
    ensures
        v@ == encode_record_spec(rec.window_title@, rec.end_timestamp@, rec.duration_secs as nat),
{
    let mut out: Vec<u8> = Vec::new();
    write_field(&mut out, &rec.window_title);
    out.push(COMMA);
    write_field(&mut out, &rec.end_timestamp);
    out.push(COMMA);
    let mut digits = u64_to_bytes(rec.duration_secs);
    out.append(&mut digits);
    proof {
        assert(out@ =~= encode_record_spec(
            rec.window_title@,
            rec.end_timestamp@,
            rec.duration_secs as nat,
        ));
    }
    out
}

/// Reads the body of a quoted field: `acc` is what has been read so far,
/// `s` the bytes after the opening quote. Yields the field and the bytes
/// after the closing quote, or nothing when no closing quote follows.
pub open spec fn parse_quoted_body(s: Seq<u8>, acc: Seq<u8>) -> Option<(Seq<u8>, Seq<u8>)>
    decreases s.len(),
{
    if s.len() == 0 {
        None
    } else if s[0] == QUOTE {
        if s.len() >= 2 && s[1] == QUOTE {
            parse_quoted_body(s.skip(2), acc.push(QUOTE))
        } else {
            Some((acc, s.skip(1)))
        }
    } else {
        parse_quoted_body(s.skip(1), acc.push(s[0]))
    }
}

/// Reads an unquoted field up to the next comma or the end of input. A
/// special byte other than the comma cannot stand unquoted.
pub open spec fn parse_unquoted_body(s: Seq<u8>, acc: Seq<u8>) -> Option<(Seq<u8>, Seq<u8>)>
    decreases s.len(),
{
    if s.len() == 0 {
        Some((acc, s))
    } else if s[0] == COMMA {
        Some((acc, s))
    } else if is_special(s[0]) {
        None
    } else {
        parse_unquoted_body(s.skip(1), acc.push(s[0]))
    }
}

/// Reads one field from the front of `s`: quoted when it opens with a
/// quote, verbatim otherwise. Yields the field and the remaining bytes.
pub open spec fn parse_field_spec(s: Seq<u8>) -> Option<(Seq<u8>, Seq<u8>)> {
    if s.len() > 0 && s[0] == QUOTE {
        parse_quoted_body(s.skip(1), Seq::empty())
    } else {
        parse_unquoted_body(s, Seq::empty())
    }
}

/// What a whole log line means: title field, comma, timestamp field, comma,
/// then a nonempty digit string whose value fits in a `u64`.
pub open spec fn parse_record_spec(line: Seq<u8>) -> Option<(Seq<u8>, Seq<u8>, nat)> {
    match parse_field_spec(line) {
        None => None,
        Some((title, rest1)) => {
            if rest1.len() > 0 && rest1[0] == COMMA {
                match parse_field_spec(rest1.skip(1)) {
                    None => None,
                    Some((timestamp, rest2)) => {
                        if rest2.len() > 0 && rest2[0] == COMMA {
                            let digits = rest2.skip(1);
                            if digits.len() > 0 && all_digits(digits) && digits_val(digits)
                                <= u64::MAX {
                                Some((title, timestamp, digits_val(digits)))
                            } else {
                                None
                            }
                        } else {
                            None
                        }
                    },
                }
            } else {
                None
            }
        },
    }
}

/// Reading a quoted body undoes the escaping: the escaped field followed by
/// the closing quote and anything that does not open with another quote
/// parses back to the field itself.
proof fn lemma_parse_quoted_escape(f: Seq<u8>, acc: Seq<u8>, rest: Seq<u8>)
    requires
        rest.len() == 0 || rest[0] != QUOTE,
    ensures
        parse_quoted_body(escape_quotes(f) + seq![QUOTE] + rest, acc) == Some((acc + f, rest)),
    decreases f.len(),
{
    let s = escape_quotes(f) + seq![QUOTE] + rest;
    if f.len() == 0 {
        assert(s =~= seq![QUOTE] + rest);
        assert(s[0] == QUOTE);
        if s.len() >= 2 {
            assert(s[1] == rest[0]);
        }
        assert(s.skip(1) =~= rest);
        assert(acc + f =~= acc);
    } else {
        let f2 = f.drop_first();
        if f[0] == QUOTE {
            assert(escape_quotes(f) =~= seq![QUOTE, QUOTE] + escape_quotes(f2));
            assert(s[0] == QUOTE);
            assert(s.len() >= 2 && s[1] == QUOTE);
            assert(s.skip(2) =~= escape_quotes(f2) + seq![QUOTE] + rest);
            lemma_parse_quoted_escape(f2, acc.push(QUOTE), rest);
            assert(acc.push(QUOTE) + f2 =~= acc + f);
        } else {
            assert(escape_quotes(f) =~= seq![f[0]] + escape_quotes(f2));
            assert(s[0] == f[0]);
            assert(s.skip(1) =~= escape_quotes(f2) + seq![QUOTE] + rest);
            lemma_parse_quoted_escape(f2, acc.push(f[0]), rest);
            assert(acc.push(f[0]) + f2 =~= acc + f);
        }
    }
}

/// Reading an unquoted body stops exactly at the comma: a field with no
/// special byte, followed by nothing or by a comma, parses back unchanged.
proof fn lemma_parse_unquoted_plain(f: Seq<u8>, acc: Seq<u8>, rest: Seq<u8>)
    requires
        !needs_quoting(f),
        rest.len() == 0 || rest[0] == COMMA,
    ensures
        parse_unquoted_body(f + rest, acc) == Some((acc + f, rest)),
    decreases f.len(),
{
    let s = f + rest;
    if f.len() == 0 {
        assert(s =~= rest);
        assert(acc + f =~= acc);
        if rest.len() > 0 {
            assert(s[0] == COMMA);
        }
    } else {
        let f2 = f.drop_first();
        assert(s[0] == f[0]);
        assert(!is_special(f[0]));
        assert(s.skip(1) =~= f2 + rest);
        assert forall|i: int| 0 <= i < f2.len() implies !is_special(f2[i]) by {
            assert(f2[i] == f[i + 1]);
        }
        lemma_parse_unquoted_plain(f2, acc.push(f[0]), rest);
        assert(acc.push(f[0]) + f2 =~= acc + f);
    }
}

/// Reading one field from an encoded field followed by nothing or by a
/// comma yields the original field and leaves the rest untouched.
proof fn lemma_parse_encode_field(f: Seq<u8>, rest: Seq<u8>)
    requires
        rest.len() == 0 || rest[0] == COMMA,
    ensures
        parse_field_spec(encode_field(f) + rest) == Some((f, rest)),
{
    let s = encode_field(f) + rest;
    if needs_quoting(f) {
        assert(s =~= seq![QUOTE] + (escape_quotes(f) + seq![QUOTE] + rest));
        assert(s[0] == QUOTE);
        assert(s.skip(1) =~= escape_quotes(f) + seq![QUOTE] + rest);
        lemma_parse_quoted_escape(f, Seq::empty(), rest);
        assert(Seq::<u8>::empty() + f =~= f);
    } else {
        assert(s =~= f + rest);
        if s.len() > 0 && s[0] == QUOTE {
            if f.len() > 0 {
                assert(is_special(f[0]));
                assert(needs_quoting(f));
            } else {
                assert(s[0] == rest[0]);
            }
            assert(false);
        }
        lemma_parse_unquoted_plain(f, Seq::empty(), rest);
        assert(Seq::<u8>::empty() + f =~= f);
    }
}

/// Round trip: every encoded record line parses back to exactly the title,
/// timestamp and duration it was made from, whatever bytes the two text
/// fields hold.
pub proof fn lemma_record_round_trip(title: Seq<u8>, timestamp: Seq<u8>, duration: nat)
    requires
        duration <= u64::MAX,
    ensures
        parse_record_spec(encode_record_spec(title, timestamp, duration)) == Some(
            (title, timestamp, duration),
        ),
{
    let line = encode_record_spec(title, timestamp, duration);
    let rest1 = seq![COMMA] + encode_field(timestamp) + seq![COMMA] + dec_rep(duration);
    assert(line =~= encode_field(title) + rest1);
    assert(rest1[0] == COMMA);
    lemma_parse_encode_field(title, rest1);
    let rest2 = seq![COMMA] + dec_rep(duration);
    assert(rest1.skip(1) =~= encode_field(timestamp) + rest2);
    assert(rest2[0] == COMMA);
    lemma_parse_encode_field(timestamp, rest2);
    assert(rest2.skip(1) =~= dec_rep(duration));
    lemma_dec_rep_val(duration);
}

/// Reads one field of `line` starting at byte `start`, returning the field
/// and the index of the byte after it (the comma, or the end of the line).
fn parse_field_at(line: &Vec<u8>, start: usize) -> (r: Option<(Vec<u8>, usize)>)
    requires
        start <= line@.len(),
    ensures
        match r {
            Some(p) => parse_field_spec(line@.skip(start as int)) == Some(
                (p.0@, line@.skip(p.1 as int)),
            ) && start <= p.1 <= line@.len(),
            None => parse_field_spec(line@.skip(start as int)) is None,
        },
{
    let ghost s0 = line@.skip(start as int);
    if start < line.len() && line[start] == QUOTE {
        proof {
            assert(s0[0] == line@[start as int]);
            assert(s0.skip(1) =~= line@.skip(start as int + 1));
        }
        let mut acc: Vec<u8> = Vec::new();
        let mut i: usize = start + 1;
        loop
            invariant
                start + 1 <= i <= line@.len(),
                parse_field_spec(line@.skip(start as int)) == parse_quoted_body(
                    line@.skip(i as int),
                    acc@,
                ),
            decreases line@.len() - i,
        {
            if i >= line.len() {
                proof {
                    assert(line@.skip(i as int).len() == 0);
                }
                return None;
            }
            let c = line[i];
            proof {
                assert(line@.skip(i as int)[0] == line@[i as int]);
                assert(line@.skip(i as int).len() == line@.len() - i);
            }
            if c == QUOTE {
                let doubled = i + 1 < line.len() && line[i + 1] == QUOTE;
                if doubled {
                    proof {
                        assert(line@.skip(i as int)[1] == line@[i as int + 1]);
                        assert(line@.skip(i as int).skip(2) =~= line@.skip(i as int + 2));
                    }
                    acc.push(QUOTE);
                    i = i + 2;
                } else {
                    proof {
                        if i + 1 < line@.len() {
                            assert(line@.skip(i as int)[1] == line@[i as int + 1]);
                        }
                        assert(line@.skip(i as int).skip(1) =~= line@.skip(i as int + 1));
                    }
                    return Some((acc, i + 1));
                }
            } else {
                proof {
                    assert(line@.skip(i as int).skip(1) =~= line@.skip(i as int + 1));
                }
                acc.push(c);
                i = i + 1;
            }
        }
    } else {
        proof {
            if s0.len() > 0 {
                assert(s0[0] == line@[start as int]);
            }
        }
        let mut acc: Vec<u8> = Vec::new();
        let mut i: usize = start;
        loop
            invariant
                start <= i <= line@.len(),
                parse_field_spec(line@.skip(start as int)) == parse_unquoted_body(
                    line@.skip(i as int),
                    acc@,
                ),
            decreases line@.len() - i,
        {
            if i >= line.len() {
                proof {
                    assert(line@.skip(i as int).len() == 0);
                }
                return Some((acc, i));
            }
            let c = line[i];
            proof {
                assert(line@.skip(i as int)[0] == line@[i as int]);
            }
            if c == COMMA {
                return Some((acc, i));
            }
            if c == QUOTE || c == CR || c == LF {
                return None;
            }
            proof {
                assert(line@.skip(i as int).skip(1) =~= line@.skip(i as int + 1));
            }
            acc.push(c);
            i = i + 1;
        }
    }
}

/// Parses one log line back into a record. Succeeds exactly on the lines
/// that [`parse_record_spec`] accepts, and returns those fields.
pub fn parse_record(line: &Vec<u8>) -> (r: Option<LogRecord>)
    ensures
        match r {
            Some(rec) => parse_record_spec(line@) == Some(
                (rec.window_title@, rec.end_timestamp@, rec.duration_secs as nat),
            ),
            None => parse_record_spec(line@) is None,
        },
{
    proof {
        assert(line@.skip(0) =~= line@);
    }
    match parse_field_at(line, 0) {
        None => None,
        Some((title, n1)) => {
            if n1 < line.len() && line[n1] == COMMA {
                proof {
                    assert(line@.skip(n1 as int)[0] == line@[n1 as int]);
                    assert(line@.skip(n1 as int).skip(1) =~= line@.skip(n1 as int + 1));
                }
                match parse_field_at(line, n1 + 1) {
                    None => None,
                    Some((timestamp, n2)) => {
                        if n2 < line.len() && line[n2] == COMMA {
                            proof {
                                assert(line@.skip(n2 as int)[0] == line@[n2 as int]);
                                assert(line@.skip(n2 as int).skip(1) =~= line@.skip(
                                    n2 as int + 1,
                                ));
                            }
                            let mut digits: Vec<u8> = Vec::new();
                            let mut j: usize = n2 + 1;
                            while j < line.len()
                                invariant
                                    n2 + 1 <= j <= line@.len(),
                                    digits@ == line@.subrange(n2 as int + 1, j as int),
                                decreases line@.len() - j,
                            {
                                let b = line[j];
                                digits.push(b);
                                proof {
                                    assert(digits@ =~= line@.subrange(n2 as int + 1, j as int + 1));
                                }
                                j = j + 1;
                            }
                            proof {
                                assert(digits@ =~= line@.skip(n2 as int + 1));
                            }
                            match parse_u64(&digits) {
                                None => None,
                                Some(d) => Some(
                                    LogRecord {
                                        window_title: title,
                                        end_timestamp: timestamp,
                                        duration_secs: d,
                                    },
                                ),
                            }
                        } else {
                            None
                        }
                    },
                }
            } else {
                None
            }
        },
    }
}

} // verus!
