//! The write-ahead log's record format: one operation per line, append-only.
//! Each record is a space-separated sequence of fields — a tag naming the
//! operation variant, decimal numbers, and escaped strings — and contains no
//! newline, so newline-delimited framing can never split or merge records.
//! The file I/O that appends records and reads them back lives outside the
//! library; the codec here is the whole meaning of a record.

use crate::state::{Operation, OperationView, Part, PartView};
use vstd::prelude::*;
use vstd::string::StringSliceAdditionalSpecFns;
use vstd::string::StrSliceExecFns;

verus! {

/// Errors of the durable log: a log that cannot be read back whole, or a
/// record that cannot be made durable.
#[derive(Debug)]
pub enum WalError {
    LoadError(String),
    AppendError(String),
}

/// One record of the log, wrapping the operation it commits.
pub struct WalEntry<A> {
    pub action: A,
}

impl<A> WalEntry<A> {
    pub fn new(action: A) -> (e: Self)
        ensures
            e.action == action,
    {
        WalEntry { action }
    }
}

/// How one character is escaped inside a record's string field: backslash,
/// newline and space — the two framing characters and the escape lead-in —
/// become two-character sequences; everything else stands for itself.
pub open spec fn esc_char(c: char) -> Seq<char> {
    if c == '\\' {
        seq!['\\', '\\']
    } else if c == '\n' {
        seq!['\\', 'n']
    } else if c == ' ' {
        seq!['\\', 's']
    } else {
        seq![c]
    }
}

/// A string field as it stands inside a record.
pub open spec fn esc(s: Seq<char>) -> Seq<char>
    decreases s.len(),
{
    if s.len() == 0 {
        Seq::empty()
    } else {
        esc_char(s[0]) + esc(s.drop_first())
    }
}

/// Unescaping a field: the inverse reading. Rejects a dangling backslash
/// and an unknown escape; any other character stands for itself.
pub open spec fn unesc(s: Seq<char>) -> Option<Seq<char>>
    decreases s.len(),
{
    if s.len() == 0 {
        Some(Seq::empty())
    } else if s[0] == '\\' {
        if s.len() < 2 {
            None
        } else {
            let tail = unesc(s.skip(2));
            if s[1] == '\\' {
                match tail {
                    Some(t) => Some(seq!['\\'] + t),
                    None => None,
                }
            } else if s[1] == 'n' {
                match tail {
                    Some(t) => Some(seq!['\n'] + t),
                    None => None,
                }
            } else if s[1] == 's' {
                match tail {
                    Some(t) => Some(seq![' '] + t),
                    None => None,
                }
            } else {
                None
            }
        }
    } else {
        match unesc(s.drop_first()) {
            Some(t) => Some(seq![s[0]] + t),
            None => None,
        }
    }
}

/// Escaping distributes over concatenation.
pub proof fn lemma_esc_append(a: Seq<char>, b: Seq<char>)
    ensures
        esc(a + b) == esc(a) + esc(b),
    decreases a.len(),
{
    if a.len() == 0 {
        assert(a + b =~= b);
        assert(esc(a) + esc(b) =~= esc(b));
    } else {
        assert((a + b).drop_first() =~= a.drop_first() + b);
        lemma_esc_append(a.drop_first(), b);
        assert(esc(a + b) =~= esc(a) + esc(b));
    }
}

/// One character's escape, as the escape of its singleton string.
proof fn lemma_esc_single(c: char)
    ensures
        esc(seq![c]) == esc_char(c),
{
    assert(seq![c].drop_first() =~= Seq::<char>::empty());
    assert(esc(seq![c].drop_first()) =~= Seq::<char>::empty());
    assert(esc(seq![c]) =~= esc_char(c));
}

/// An escaped field contains neither of the framing characters.
pub proof fn lemma_esc_no_separator(s: Seq<char>)
    ensures
        forall|i: int| 0 <= i < esc(s).len() ==> esc(s)[i] != ' ' && esc(s)[i] != '\n',
    decreases s.len(),
{
    if s.len() > 0 {
        lemma_esc_no_separator(s.drop_first());
        let head = esc_char(s[0]);
        let rest = esc(s.drop_first());
        assert forall|i: int| 0 <= i < esc(s).len() implies esc(s)[i] != ' ' && esc(s)[i]
            != '\n' by {
            assert(esc(s) == head + rest);
            if i < head.len() {
                assert(esc(s)[i] == head[i]);
            } else {
                assert(esc(s)[i] == rest[i - head.len()]);
            }
        }
    }
}

/// Unescaping undoes escaping: every string survives the round trip
/// through its record form.
pub proof fn lemma_unesc_esc(s: Seq<char>)
    ensures
        unesc(esc(s)) == Some(s),
    decreases s.len(),
{
    if s.len() == 0 {
    } else {
        lemma_unesc_esc(s.drop_first());
        let e = esc(s);
        assert(e =~= esc_char(s[0]) + esc(s.drop_first()));
        if s[0] == '\\' || s[0] == '\n' || s[0] == ' ' {
            assert(e.skip(2) =~= esc(s.drop_first()));
            assert(unesc(e) == Some(seq![s[0]] + s.drop_first()));
        } else {
            assert(e.drop_first() =~= esc(s.drop_first()));
            assert(unesc(e) == Some(seq![s[0]] + s.drop_first()));
        }
        assert(seq![s[0]] + s.drop_first() =~= s);
    }
}

/// Append the escaped form of `s` to `out`.
fn append_escaped(out: &mut String, s: &str)
    ensures
        final(out)@ == old(out)@ + esc(s@),
{
    let n = s.unicode_len();
    let mut i: usize = 0;
    while i < n
        invariant
            n == s@.len(),
            i <= n,
            out@ == old(out)@ + esc(s@.take(i as int)),
        decreases n - i,
    {
        let c = s.get_char(i);
        proof {
            lemma_esc_append(s@.take(i as int), seq![c]);
            assert(s@.take(i + 1) =~= s@.take(i as int) + seq![c]);
            lemma_esc_single(c);
        }
        if c == '\\' {
            out.append("\\\\");
            proof {
                reveal_strlit("\\\\");
                assert("\\\\"@ =~= esc_char(c));
            }
        } else if c == '\n' {
            out.append("\\n");
            proof {
                reveal_strlit("\\n");
                assert("\\n"@ =~= esc_char(c));
            }
        } else if c == ' ' {
            out.append("\\s");
            proof {
                reveal_strlit("\\s");
                assert("\\s"@ =~= esc_char(c));
            }
        } else {
            let piece = s.substring_char(i, i + 1);
            out.append(piece);
            proof {
                assert(piece@ =~= seq![c]);
                assert(piece@ =~= esc_char(c));
            }
        }
        i = i + 1;
    }
    proof {
        assert(s@.take(n as int) =~= s@);
    }
}

/// The decimal digit characters.
pub open spec fn is_digit(c: char) -> bool {
    48 <= c as int <= 57
}

pub open spec fn all_digits(s: Seq<char>) -> bool {
    forall|i: int| 0 <= i < s.len() ==> is_digit(#[trigger] s[i])
}

pub open spec fn char_digit(c: char) -> int {
    c as int - 48
}

pub open spec fn digit_char(d: int) -> char {
    if d == 0 {
        '0'
    } else if d == 1 {
        '1'
    } else if d == 2 {
        '2'
    } else if d == 3 {
        '3'
    } else if d == 4 {
        '4'
    } else if d == 5 {
        '5'
    } else if d == 6 {
        '6'
    } else if d == 7 {
        '7'
    } else if d == 8 {
        '8'
    } else {
        '9'
    }
}

/// The value a digit string denotes, most significant digit first.
pub open spec fn digits_val(s: Seq<char>) -> int
    decreases s.len(),
{
    if s.len() == 0 {
        0
    } else {
        digits_val(s.drop_last()) * 10 + char_digit(s.last())
    }
}

/// The decimal rendering of a non-negative number.
pub open spec fn dec_rep(n: int) -> Seq<char>
    recommends
        n >= 0,
    decreases n,
{
    if n < 10 {
        seq![digit_char(n)]
    } else {
        dec_rep(n / 10) + seq![digit_char(n % 10)]
    }
}

/// The decimal rendering of a signed number: a minus sign, then digits.
pub open spec fn dec_rep_i64(n: int) -> Seq<char> {
    if n >= 0 {
        dec_rep(n)
    } else {
        seq!['-'] + dec_rep(-n)
    }
}

/// A digit string's value never goes down while digits are appended.
proof fn lemma_digits_val_nonneg(s: Seq<char>)
    requires
        all_digits(s),
    ensures
        digits_val(s) >= 0,
    decreases s.len(),
{
    if s.len() > 0 {
        assert(all_digits(s.drop_last()));
        lemma_digits_val_nonneg(s.drop_last());
    }
}

proof fn lemma_digits_val_monotone(s: Seq<char>, i: int)
    requires
        all_digits(s),
        0 <= i <= s.len(),
    ensures
        digits_val(s.take(i)) <= digits_val(s),
    decreases s.len() - i,
{
    if i == s.len() {
        assert(s.take(i) =~= s);
    } else {
        assert(s.take(i + 1).drop_last() =~= s.take(i));
        assert(all_digits(s.take(i)));
        lemma_digits_val_nonneg(s.take(i));
        lemma_digits_val_monotone(s, i + 1);
    }
}

/// The decimal rendering denotes the number it came from: digits only,
/// never empty, and reading it back yields the same value.
pub proof fn lemma_dec_rep_val(n: int)
    requires
        n >= 0,
    ensures
        all_digits(dec_rep(n)),
        dec_rep(n).len() >= 1,
        digits_val(dec_rep(n)) == n,
    decreases n,
{
    if n < 10 {
        assert(dec_rep(n) =~= seq![digit_char(n)]);
        assert(dec_rep(n).drop_last() =~= Seq::<char>::empty());
        assert(char_digit(digit_char(n)) == n);
        assert(digits_val(dec_rep(n)) == digits_val(dec_rep(n).drop_last()) * 10 + char_digit(
            dec_rep(n).last(),
        ));
        assert(dec_rep(n).last() == digit_char(n));
    } else {
        lemma_dec_rep_val(n / 10);
        let whole = dec_rep(n);
        let head = dec_rep(n / 10);
        assert(whole =~= head + seq![digit_char(n % 10)]);
        assert(whole.drop_last() =~= head);
        assert(whole.last() == digit_char(n % 10));
        assert(char_digit(digit_char(n % 10)) == n % 10);
        assert(digits_val(whole) == (n / 10) * 10 + n % 10);
        assert((n / 10) * 10 + n % 10 == n) by (nonlinear_arith);
        assert(forall|i: int|
            0 <= i < whole.len() ==> is_digit(#[trigger] whole[i]) == if i < head.len() {
                is_digit(head[i])
            } else {
                is_digit(seq![digit_char(n % 10)][i - head.len()])
            });
    }
}

/// Digit strings contain neither framing character.
proof fn lemma_digits_no_separator(s: Seq<char>)
    requires
        all_digits(s),
    ensures
        forall|i: int| 0 <= i < s.len() ==> s[i] != ' ' && s[i] != '\n',
{
    assert forall|i: int| 0 <= i < s.len() implies s[i] != ' ' && s[i] != '\n' by {
        assert(is_digit(s[i]));
    }
}

/// Append the decimal rendering of `n` to `out`.
fn append_dec_u64(out: &mut String, n: u64)
    ensures
        final(out)@ == old(out)@ + dec_rep(n as int),
    decreases n,
{
    let ghost out0 = out@;
    if n >= 10 {
        append_dec_u64(out, n / 10);
    }
    let ghost mid = out@;
    let d: u64 = n % 10;
    if d == 0 {
        out.append("0");
        proof {
            reveal_strlit("0");
            assert("0"@ =~= seq![digit_char(d as int)]);
        }
    } else if d == 1 {
        out.append("1");
        proof {
            reveal_strlit("1");
            assert("1"@ =~= seq![digit_char(d as int)]);
        }
    } else if d == 2 {
        out.append("2");
        proof {
            reveal_strlit("2");
            assert("2"@ =~= seq![digit_char(d as int)]);
        }
    } else if d == 3 {
        out.append("3");
        proof {
            reveal_strlit("3");
            assert("3"@ =~= seq![digit_char(d as int)]);
        }
    } else if d == 4 {
        out.append("4");
        proof {
            reveal_strlit("4");
            assert("4"@ =~= seq![digit_char(d as int)]);
        }
    } else if d == 5 {
        out.append("5");
        proof {
            reveal_strlit("5");
            assert("5"@ =~= seq![digit_char(d as int)]);
        }
    } else if d == 6 {
        out.append("6");
        proof {
            reveal_strlit("6");
            assert("6"@ =~= seq![digit_char(d as int)]);
        }
    } else if d == 7 {
        out.append("7");
        proof {
            reveal_strlit("7");
            assert("7"@ =~= seq![digit_char(d as int)]);
        }
    } else if d == 8 {
        out.append("8");
        proof {
            reveal_strlit("8");
            assert("8"@ =~= seq![digit_char(d as int)]);
        }
    } else {
        out.append("9");
        proof {
            reveal_strlit("9");
            assert("9"@ =~= seq![digit_char(d as int)]);
        }
    }
    proof {
        if n < 10 {
            assert(d == n);
            assert(out@ =~= out0 + seq![digit_char(n as int)]);
        } else {
            assert(mid == out0 + dec_rep(n as int / 10));
            assert(out@ =~= out0 + (dec_rep(n as int / 10) + seq![digit_char(n as int % 10)]));
        }
    }
}

/// Append the decimal rendering of a signed number to `out`.
fn append_dec_i64(out: &mut String, n: i64)
    ensures
        final(out)@ == old(out)@ + dec_rep_i64(n as int),
{
    let ghost out0 = out@;
    if n >= 0 {
        append_dec_u64(out, n as u64);
    } else {
        out.append("-");
        let ghost mid = out@;
        proof {
            reveal_strlit("-");
            assert("-"@ =~= seq!['-']);
        }
        let m: u64 = if n == i64::MIN {
            9223372036854775808u64
        } else {
            (-n) as u64
        };
        append_dec_u64(out, m);
        proof {
            assert(m as int == -(n as int));
            assert(out@ =~= out0 + (seq!['-'] + dec_rep(m as int)));
        }
    }
}

/// The value a digit field denotes, if it is a well-formed field whose
/// value a `u64` can hold.
pub open spec fn parse_dec(s: Seq<char>) -> Option<int> {
    if all_digits(s) && s.len() > 0 && digits_val(s) <= u64::MAX {
        Some(digits_val(s))
    } else {
        None
    }
}

/// Read a decimal field: exactly the fields `parse_dec` accepts come back,
/// with exactly the value it denotes.
fn parse_u64_digits(s: &str) -> (r: Option<u64>)
    ensures
        match r {
            Some(v) => parse_dec(s@) == Some(v as int),
            None => parse_dec(s@) is None,
        },
{
    let n = s.unicode_len();
    if n == 0 {
        return None;
    }
    let mut acc: u64 = 0;
    let mut i: usize = 0;
    proof {
        assert(s@.take(0) =~= Seq::<char>::empty());
    }
    while i < n
        invariant
            n == s@.len(),
            i <= n,
            all_digits(s@.take(i as int)),
            digits_val(s@.take(i as int)) == acc as int,
        decreases n - i,
    {
        let c = s.get_char(i);
        let cv = c as u32;
        if cv < 48 || cv > 57 {
            proof {
                assert(!is_digit(s@[i as int]));
            }
            return None;
        }
        let d: u64 = (cv - 48) as u64;
        proof {
            assert(s@.take(i + 1).drop_last() =~= s@.take(i as int));
            assert(s@.take(i + 1).last() == s@[i as int]);
            assert(all_digits(s@.take(i + 1)));
            assert(digits_val(s@.take(i + 1)) == acc as int * 10 + d as int);
        }
        if acc > 1844674407370955161u64 || (acc == 1844674407370955161u64 && d > 5) {
            proof {
                assert(digits_val(s@.take(i + 1)) > u64::MAX);
                if all_digits(s@) {
                    lemma_digits_val_monotone(s@, i + 1);
                }
            }
            return None;
        }
        acc = acc * 10 + d;
        i = i + 1;
    }
    proof {
        assert(s@.take(n as int) =~= s@);
    }
    Some(acc)
}

/// A decoded prefix in front of the reading of the remaining input.
pub open spec fn opt_prepend(p: Seq<char>, o: Option<Seq<char>>) -> Option<Seq<char>> {
    match o {
        Some(t) => Some(p + t),
        None => None,
    }
}

/// Read an escaped field back. Exactly the strings `unesc` accepts come
/// back, with exactly its reading.
fn unescape(s: &str) -> (r: Option<String>)
    ensures
        match r {
            Some(t) => unesc(s@) == Some(t@),
            None => unesc(s@) is None,
        },
{
    let n = s.unicode_len();
    let mut out = String::new();
    let mut i: usize = 0;
    proof {
        assert(s@.skip(0) =~= s@);
        match unesc(s@) {
            Some(t) => {
                assert(out@ + t =~= t);
            },
            None => {},
        }
    }
    while i < n
        invariant
            n == s@.len(),
            i <= n,
            unesc(s@) == opt_prepend(out@, unesc(s@.skip(i as int))),
        decreases n - i,
    {
        let ghost out0 = out@;
        let ghost here = s@.skip(i as int);
        let c = s.get_char(i);
        proof {
            assert(here[0] == c);
            assert(here.drop_first() =~= s@.skip(i + 1));
        }
        if c == '\\' {
            if i + 1 >= n {
                proof {
                    assert(here.len() < 2);
                }
                return None;
            }
            let d = s.get_char(i + 1);
            proof {
                assert(here[1] == d);
                assert(here.skip(2) =~= s@.skip(i + 2));
            }
            if d == '\\' {
                out.append("\\");
                proof {
                    reveal_strlit("\\");
                    assert("\\"@ =~= seq!['\\']);
                    match unesc(s@.skip(i + 2)) {
                        Some(t) => {
                            assert(out0 + (seq!['\\'] + t) =~= (out0 + seq!['\\']) + t);
                            assert(out@ =~= out0 + seq!['\\']);
                        },
                        None => {},
                    }
                }
            } else if d == 'n' {
                out.append("\n");
                proof {
                    reveal_strlit("\n");
                    assert("\n"@ =~= seq!['\n']);
                    match unesc(s@.skip(i + 2)) {
                        Some(t) => {
                            assert(out0 + (seq!['\n'] + t) =~= (out0 + seq!['\n']) + t);
                            assert(out@ =~= out0 + seq!['\n']);
                        },
                        None => {},
                    }
                }
            } else if d == 's' {
                out.append(" ");
                proof {
                    reveal_strlit(" ");
                    assert(" "@ =~= seq![' ']);
                    match unesc(s@.skip(i + 2)) {
                        Some(t) => {
                            assert(out0 + (seq![' '] + t) =~= (out0 + seq![' ']) + t);
                            assert(out@ =~= out0 + seq![' ']);
                        },
                        None => {},
                    }
                }
            } else {
                return None;
            }
            i = i + 2;
        } else {
            let piece = s.substring_char(i, i + 1);
            out.append(piece);
            proof {
                assert(piece@ =~= seq![c]);
                match unesc(s@.skip(i + 1)) {
                        Some(t) => {
                            assert(out0 + (seq![c] + t) =~= (out0 + seq![c]) + t);
                            assert(out@ =~= out0 + seq![c]);
                        },
                        None => {},
                    }
            }
            i = i + 1;
        }
    }
    proof {
        assert(s@.skip(n as int) =~= Seq::<char>::empty());
        assert(unesc(s@.skip(n as int)) == Some(Seq::<char>::empty()));
        assert(out@ + Seq::<char>::empty() =~= out@);
    }
    Some(out)
}

/// One part inside a configured-parts record: number, source path and etag,
/// each preceded by a separating space.
pub open spec fn encode_part(p: PartView) -> Seq<char> {
    seq![' '] + dec_rep_i64(p.number as int) + seq![' '] + esc(p.path) + seq![' '] + esc(p.etag)
}

pub open spec fn encode_parts(parts: Seq<PartView>) -> Seq<char>
    decreases parts.len(),
{
    if parts.len() == 0 {
        Seq::empty()
    } else {
        encode_parts(parts.drop_last()) + encode_part(parts.last())
    }
}

/// The record written for one operation: a tag naming the variant, then its
/// fields, space-separated, strings escaped and numbers decimal.
pub open spec fn encode_op(op: OperationView) -> Seq<char> {
    match op {
        OperationView::ConfiguredParts(parts) => "parts"@ + encode_parts(parts),
        OperationView::Started { upload_id } => "started "@ + esc(upload_id),
        OperationView::FailedStart { attempt, msg } => "failed-start "@ + dec_rep(attempt as int)
            + seq![' '] + esc(msg),
        OperationView::UploadedPart { index, etag } => "uploaded "@ + dec_rep(index as int)
            + seq![' '] + esc(etag),
        OperationView::FailedPart { index, attempt, msg } => "failed-part "@ + dec_rep(
            index as int,
        ) + seq![' '] + dec_rep(attempt as int) + seq![' '] + esc(msg),
        OperationView::FailedComplete { attempt, msg } => "failed-complete "@ + dec_rep(
            attempt as int,
        ) + seq![' '] + esc(msg),
        OperationView::Completed => "completed"@,
        OperationView::FailedAbort { attempt, msg } => "failed-abort "@ + dec_rep(attempt as int)
            + seq![' '] + esc(msg),
        OperationView::Aborted => "aborted"@,
    }
}

/// Write one operation as its record. The record is exactly the encoding
/// the specification gives, so equal operations always produce equal
/// records.
pub fn encode_record(op: &Operation) -> (r: String)
    ensures
        r@ == encode_op(op@),
{
    match op {
        Operation::ConfiguredParts(parts) => {
            let mut out = String::from_str("parts");
            let ghost mapped = parts@.map_values(|p: Part| p@);
            proof {
                assert(mapped.take(0) =~= Seq::<PartView>::empty());
                assert(out@ =~= "parts"@ + encode_parts(mapped.take(0)));
            }
            let mut j: usize = 0;
            while j < parts.len()
                invariant
                    j <= parts.len(),
                    mapped == parts@.map_values(|p: Part| p@),
                    out@ == "parts"@ + encode_parts(mapped.take(j as int)),
                decreases parts.len() - j,
            {
                let ghost base = out@;
                let p = &parts[j];
                out.append(" ");
                append_dec_i64(&mut out, p.number);
                out.append(" ");
                append_escaped(&mut out, p.path.as_str());
                out.append(" ");
                append_escaped(&mut out, p.etag.as_str());
                proof {
                    reveal_strlit(" ");
                    assert(" "@ =~= seq![' ']);
                    assert(mapped.take(j + 1).drop_last() =~= mapped.take(j as int));
                    assert(mapped.take(j + 1).last() == p@);
                    assert(out@ =~= base + encode_part(p@));
                    assert(out@ =~= "parts"@ + encode_parts(mapped.take(j + 1)));
                }
                j = j + 1;
            }
            proof {
                assert(mapped.take(parts@.len() as int) =~= mapped);
            }
            out
        },
        Operation::Started { upload_id } => {
            let mut out = String::from_str("started ");
            append_escaped(&mut out, upload_id.as_str());
            out
        },
        Operation::FailedStart { attempt, msg } => {
            let mut out = String::from_str("failed-start ");
            append_dec_u64(&mut out, *attempt as u64);
            out.append(" ");
            append_escaped(&mut out, msg.as_str());
            proof {
                reveal_strlit(" ");
                assert(" "@ =~= seq![' ']);
                assert(out@ =~= encode_op(op@));
            }
            out
        },
        Operation::UploadedPart { index, etag } => {
            let mut out = String::from_str("uploaded ");
            append_dec_u64(&mut out, *index as u64);
            out.append(" ");
            append_escaped(&mut out, etag.as_str());
            proof {
                reveal_strlit(" ");
                assert(" "@ =~= seq![' ']);
                assert(out@ =~= encode_op(op@));
            }
            out
        },
        Operation::FailedPart { index, attempt, msg } => {
            let mut out = String::from_str("failed-part ");
            append_dec_u64(&mut out, *index as u64);
            out.append(" ");
            append_dec_u64(&mut out, *attempt as u64);
            out.append(" ");
            append_escaped(&mut out, msg.as_str());
            proof {
                reveal_strlit(" ");
                assert(" "@ =~= seq![' ']);
                assert(out@ =~= encode_op(op@));
            }
            out
        },
        Operation::FailedComplete { attempt, msg } => {
            let mut out = String::from_str("failed-complete ");
            append_dec_u64(&mut out, *attempt as u64);
            out.append(" ");
            append_escaped(&mut out, msg.as_str());
            proof {
                reveal_strlit(" ");
                assert(" "@ =~= seq![' ']);
                assert(out@ =~= encode_op(op@));
            }
            out
        },
        Operation::Completed => String::from_str("completed"),
        Operation::FailedAbort { attempt, msg } => {
            let mut out = String::from_str("failed-abort ");
            append_dec_u64(&mut out, *attempt as u64);
            out.append(" ");
            append_escaped(&mut out, msg.as_str());
            proof {
                reveal_strlit(" ");
                assert(" "@ =~= seq![' ']);
                assert(out@ =~= encode_op(op@));
            }
            out
        },
        Operation::Aborted => String::from_str("aborted"),
    }
}

/// Split a record at its first space: the field before it, and everything
/// after it. A record without a space is one whole field.
pub open spec fn parse_field(s: Seq<char>) -> (Seq<char>, Seq<char>)
    decreases s.len(),
{
    if s.len() == 0 {
        (Seq::empty(), Seq::empty())
    } else if s[0] == ' ' {
        (Seq::<char>::empty(), s.drop_first())
    } else {
        let r = parse_field(s.drop_first());
        (seq![s[0]] + r.0, r.1)
    }
}

/// What remains after a field is strictly shorter than the input.
proof fn lemma_parse_field_len(s: Seq<char>)
    ensures
        parse_field(s).1.len() <= s.len(),
        s.len() > 0 ==> parse_field(s).1.len() < s.len(),
    decreases s.len(),
{
    if s.len() > 0 && s[0] != ' ' {
        lemma_parse_field_len(s.drop_first());
    }
}

/// Where the first space sits decides the split exactly.
proof fn lemma_parse_field_at(s: Seq<char>, i: int)
    requires
        0 <= i <= s.len(),
        forall|j: int| 0 <= j < i ==> s[j] != ' ',
        i < s.len() ==> s[i] == ' ',
    ensures
        parse_field(s).0 == s.take(i),
        parse_field(s).1 == if i < s.len() {
            s.skip(i + 1)
        } else {
            Seq::<char>::empty()
        },
    decreases i,
{
    if i == 0 {
        if s.len() == 0 {
            assert(s.take(0) =~= Seq::<char>::empty());
        } else {
            assert(s.take(0) =~= Seq::<char>::empty());
            assert(s.drop_first() =~= s.skip(1));
        }
    } else {
        let t = s.drop_first();
        assert(forall|j: int| 0 <= j < i - 1 ==> t[j] == s[j + 1]);
        lemma_parse_field_at(t, i - 1);
        assert(seq![s[0]] + t.take(i - 1) =~= s.take(i));
        if i < s.len() {
            assert(t.skip(i) =~= s.skip(i + 1));
        }
    }
}

/// A field with no space in it, followed by a space and the rest, splits
/// back into exactly that field and that rest.
proof fn lemma_parse_field_exact(f: Seq<char>, rest: Seq<char>)
    requires
        forall|j: int| 0 <= j < f.len() ==> f[j] != ' ',
    ensures
        parse_field(f + seq![' '] + rest) == (f, rest),
        parse_field(f) == (f, Seq::<char>::empty()),
    decreases f.len(),
{
    let s = f + seq![' '] + rest;
    assert(forall|j: int| 0 <= j < f.len() ==> s[j] == f[j]);
    assert(s[f.len() as int] == ' ');
    lemma_parse_field_at(s, f.len() as int);
    assert(s.take(f.len() as int) =~= f);
    assert(s.skip(f.len() as int + 1) =~= rest);
    lemma_parse_field_at(f, f.len() as int);
    assert(f.take(f.len() as int) =~= f);
}

/// Split off the first field of a record.
fn split_first(s: &str) -> (r: (String, String))
    ensures
        r.0@ == parse_field(s@).0,
        r.1@ == parse_field(s@).1,
{
    let n = s.unicode_len();
    let mut i: usize = 0;
    while i < n && s.get_char(i) != ' '
        invariant
            n == s@.len(),
            i <= n,
            forall|j: int| 0 <= j < i ==> s@[j] != ' ',
        decreases n - i,
    {
        i = i + 1;
    }
    let field = s.substring_char(0, i);
    proof {
        lemma_parse_field_at(s@, i as int);
        assert(field@ =~= s@.take(i as int));
    }
    if i < n {
        let rest = s.substring_char(i + 1, n);
        proof {
            assert(rest@ =~= s@.skip(i + 1));
        }
        (String::from_str(field), String::from_str(rest))
    } else {
        (String::from_str(field), String::new())
    }
}

/// The value of a signed decimal field, if it fits an `i64`.
pub open spec fn parse_dec_i64(f: Seq<char>) -> Option<int> {
    if f.len() > 0 && f[0] == '-' {
        match parse_dec(f.drop_first()) {
            Some(v) => if v <= 0x8000000000000000 {
                Some(-v)
            } else {
                None
            },
            None => None,
        }
    } else {
        match parse_dec(f) {
            Some(v) => if v <= i64::MAX {
                Some(v)
            } else {
                None
            },
            None => None,
        }
    }
}

/// Read a signed decimal field.
fn parse_i64_field(f: &str) -> (r: Option<i64>)
    ensures
        match r {
            Some(v) => parse_dec_i64(f@) == Some(v as int),
            None => parse_dec_i64(f@) is None,
        },
{
    let n = f.unicode_len();
    if n > 0 && f.get_char(0) == '-' {
        let digits = f.substring_char(1, n);
        proof {
            assert(digits@ =~= f@.drop_first());
        }
        match parse_u64_digits(digits) {
            Some(v) => {
                if v == 9223372036854775808u64 {
                    Some(i64::MIN)
                } else if v < 9223372036854775808u64 {
                    Some(-(v as i64))
                } else {
                    None
                }
            },
            None => None,
        }
    } else {
        match parse_u64_digits(f) {
            Some(v) => {
                if v <= 9223372036854775807u64 {
                    Some(v as i64)
                } else {
                    None
                }
            },
            None => None,
        }
    }
}

/// An attempt counter followed by a message: the shared tail of every
/// failure record.
pub open spec fn parse_attempt_msg(s: Seq<char>) -> Option<(u32, Seq<char>)> {
    let (f1, r1) = parse_field(s);
    match parse_dec(f1) {
        Some(v) => if v <= u32::MAX {
            match unesc(r1) {
                Some(m) => Some(((v as u32), m)),
                None => None,
            }
        } else {
            None
        },
        None => None,
    }
}

/// Read an attempt counter and a message.
fn split_attempt_msg(s: &str) -> (r: Option<(u32, String)>)
    ensures
        match r {
            Some(p) => parse_attempt_msg(s@) == Some((p.0, p.1@)),
            None => parse_attempt_msg(s@) is None,
        },
{
    let (f1, r1) = split_first(s);
    match parse_u64_digits(f1.as_str()) {
        Some(v) => {
            if v <= 0xffffffffu64 {
                match unescape(r1.as_str()) {
                    Some(m) => Some((v as u32, m)),
                    None => None,
                }
            } else {
                None
            }
        },
        None => None,
    }
}

/// The parts of a configured-parts record: triples of number, path and
/// etag, until the record ends.
pub open spec fn decode_parts(s: Seq<char>) -> Option<Seq<PartView>>
    decreases s.len(),
    via decode_parts_decreases
{
    if s.len() == 0 {
        Some(Seq::empty())
    } else {
        let (f1, r1) = parse_field(s);
        let (f2, r2) = parse_field(r1);
        let (f3, r3) = parse_field(r2);
        match parse_dec_i64(f1) {
            Some(num) => match unesc(f2) {
                Some(path) => match unesc(f3) {
                    Some(etag) => match decode_parts(r3) {
                        Some(tail) => Some(
                            seq![PartView { number: num as i64, path, etag }] + tail,
                        ),
                        None => None,
                    },
                    None => None,
                },
                None => None,
            },
            None => None,
        }
    }
}

#[via_fn]
proof fn decode_parts_decreases(s: Seq<char>) {
    if s.len() > 0 {
        lemma_parse_field_len(s);
        lemma_parse_field_len(parse_field(s).1);
        lemma_parse_field_len(parse_field(parse_field(s).1).1);
    }
}

/// Read the part list of a configured-parts record.
fn parse_parts_list(s: &str) -> (r: Option<Vec<Part>>)
    ensures
        match r {
            Some(v) => decode_parts(s@) == Some(v@.map_values(|p: Part| p@)),
            None => decode_parts(s@) is None,
        },
    decreases s@.len(),
{
    if s.unicode_len() == 0 {
        let out: Vec<Part> = Vec::new();
        proof {
            assert(out@.map_values(|p: Part| p@) =~= Seq::<PartView>::empty());
        }
        return Some(out);
    }
    let (f1, r1) = split_first(s);
    let (f2, r2) = split_first(r1.as_str());
    let (f3, r3) = split_first(r2.as_str());
    proof {
        lemma_parse_field_len(s@);
        lemma_parse_field_len(r1@);
        lemma_parse_field_len(r2@);
    }
    let number = match parse_i64_field(f1.as_str()) {
        Some(v) => v,
        None => {
            return None;
        },
    };
    let path = match unescape(f2.as_str()) {
        Some(p) => p,
        None => {
            return None;
        },
    };
    let etag = match unescape(f3.as_str()) {
        Some(e) => e,
        None => {
            return None;
        },
    };
    match parse_parts_list(r3.as_str()) {
        Some(tail) => {
            let mut out = tail;
            out.insert(0, Part { number, path, etag });
            proof {
                assert(out@.map_values(|p: Part| p@) =~= seq![out@[0]@] + out@.drop_first()
                    .map_values(|p: Part| p@));
                assert(out@.drop_first() =~= out@.subrange(1, out@.len() as int));
            }
            Some(out)
        },
        None => None,
    }
}

/// The operation a record denotes, if it denotes one: the inverse reading
/// of `encode_op`.
pub open spec fn decode_op(s: Seq<char>) -> Option<OperationView> {
    let (tag, rest) = parse_field(s);
    if tag == "parts"@ {
        match decode_parts(rest) {
            Some(parts) => Some(OperationView::ConfiguredParts(parts)),
            None => None,
        }
    } else if tag == "started"@ {
        match unesc(rest) {
            Some(id) => Some(OperationView::Started { upload_id: id }),
            None => None,
        }
    } else if tag == "failed-start"@ {
        match parse_attempt_msg(rest) {
            Some(am) => Some(OperationView::FailedStart { attempt: am.0, msg: am.1 }),
            None => None,
        }
    } else if tag == "uploaded"@ {
        let (f1, r1) = parse_field(rest);
        match parse_dec(f1) {
            Some(v) => if v <= usize::MAX {
                match unesc(r1) {
                    Some(etag) => Some(OperationView::UploadedPart { index: v as usize, etag }),
                    None => None,
                }
            } else {
                None
            },
            None => None,
        }
    } else if tag == "failed-part"@ {
        let (f1, r1) = parse_field(rest);
        match parse_dec(f1) {
            Some(v) => if v <= usize::MAX {
                match parse_attempt_msg(r1) {
                    Some(am) => Some(
                        OperationView::FailedPart {
                            index: v as usize,
                            attempt: am.0,
                            msg: am.1,
                        },
                    ),
                    None => None,
                }
            } else {
                None
            },
            None => None,
        }
    } else if tag == "failed-complete"@ {
        match parse_attempt_msg(rest) {
            Some(am) => Some(OperationView::FailedComplete { attempt: am.0, msg: am.1 }),
            None => None,
        }
    } else if tag == "completed"@ {
        if rest.len() == 0 {
            Some(OperationView::Completed)
        } else {
            None
        }
    } else if tag == "failed-abort"@ {
        match parse_attempt_msg(rest) {
            Some(am) => Some(OperationView::FailedAbort { attempt: am.0, msg: am.1 }),
            None => None,
        }
    } else if tag == "aborted"@ {
        if rest.len() == 0 {
            Some(OperationView::Aborted)
        } else {
            None
        }
    } else {
        None
    }
}

/// A signed decimal rendering never holds a space, and reads back to the
/// number it came from.
proof fn lemma_dec_rep_i64_roundtrip(n: int)
    requires
        i64::MIN <= n <= i64::MAX,
    ensures
        forall|i: int|
            0 <= i < dec_rep_i64(n).len() ==> #[trigger] dec_rep_i64(n)[i] != ' ' && dec_rep_i64(
                n,
            )[i] != '\n',
        dec_rep_i64(n).len() > 0,
        parse_dec_i64(dec_rep_i64(n)) == Some(n),
{
    if n >= 0 {
        lemma_dec_rep_val(n);
        lemma_digits_no_separator(dec_rep(n));
        assert(is_digit(dec_rep(n)[0]));
        assert(dec_rep(n)[0] != '-');
    } else {
        lemma_dec_rep_val(-n);
        lemma_digits_no_separator(dec_rep(-n));
        let f = dec_rep_i64(n);
        assert(f =~= seq!['-'] + dec_rep(-n));
        assert(f[0] == '-');
        assert(f.drop_first() =~= dec_rep(-n));
        assert forall|i: int| 0 <= i < f.len() implies f[i] != ' ' && f[i] != '\n' by {
            if i > 0 {
                assert(f[i] == dec_rep(-n)[i - 1]);
            }
        }
    }
}

/// An attempt counter and a message survive the trip through their record
/// fields.
proof fn lemma_attempt_msg_roundtrip(attempt: u32, msg: Seq<char>)
    ensures
        parse_attempt_msg(dec_rep(attempt as int) + seq![' '] + esc(msg)) == Some((attempt, msg)),
{
    lemma_dec_rep_val(attempt as int);
    lemma_digits_no_separator(dec_rep(attempt as int));
    lemma_parse_field_exact(dec_rep(attempt as int), esc(msg));
    lemma_unesc_esc(msg);
}

/// One part's fields, after the space that separates parts.
pub open spec fn encode_part_fields(p: PartView) -> Seq<char> {
    dec_rep_i64(p.number as int) + seq![' '] + esc(p.path) + seq![' '] + esc(p.etag)
}

/// A part list's record body: the first part's fields, then the remaining
/// parts each behind their separating space.
pub open spec fn parts_body(parts: Seq<PartView>) -> Seq<char> {
    if parts.len() == 0 {
        Seq::empty()
    } else {
        encode_part_fields(parts[0]) + encode_parts(parts.drop_first())
    }
}

/// The encoding of a part list, taken apart at its first part.
proof fn lemma_encode_parts_left(parts: Seq<PartView>)
    requires
        parts.len() > 0,
    ensures
        encode_parts(parts) == seq![' '] + parts_body(parts),
    decreases parts.len(),
{
    if parts.len() == 1 {
        assert(parts.drop_last() =~= Seq::<PartView>::empty());
        assert(parts.drop_first() =~= Seq::<PartView>::empty());
        assert(parts.last() == parts[0]);
        assert(encode_parts(parts) =~= seq![' '] + parts_body(parts));
    } else {
        let head = parts.drop_last();
        lemma_encode_parts_left(head);
        assert(head[0] == parts[0]);
        assert(head.drop_first() =~= parts.drop_first().drop_last());
        assert(parts.drop_first().last() == parts.last());
        assert(encode_parts(parts) == encode_parts(head) + encode_part(parts.last()));
        assert(encode_parts(parts.drop_first()) == encode_parts(parts.drop_first().drop_last())
            + encode_part(parts.last()));
        assert(encode_parts(parts) =~= seq![' '] + parts_body(parts));
    }
}

/// A part list survives the trip through its record body.
proof fn lemma_decode_parts_roundtrip(parts: Seq<PartView>)
    ensures
        decode_parts(parts_body(parts)) == Some(parts),
    decreases parts.len(),
{
    if parts.len() == 0 {
        assert(parts_body(parts) =~= Seq::<char>::empty());
        assert(decode_parts(parts_body(parts)) == Some(Seq::<PartView>::empty()));
        assert(Seq::<PartView>::empty() =~= parts);
    } else {
        let p0 = parts[0];
        let rest = parts.drop_first();
        lemma_decode_parts_roundtrip(rest);
        lemma_dec_rep_i64_roundtrip(p0.number as int);
        lemma_esc_no_separator(p0.path);
        lemma_esc_no_separator(p0.etag);
        lemma_unesc_esc(p0.path);
        lemma_unesc_esc(p0.etag);
        let body = parts_body(parts);
        let tail1 = esc(p0.path) + seq![' '] + (esc(p0.etag) + encode_parts(rest));
        assert(body =~= dec_rep_i64(p0.number as int) + seq![' '] + tail1);
        lemma_parse_field_exact(dec_rep_i64(p0.number as int), tail1);
        assert(parse_field(body).0 == dec_rep_i64(p0.number as int));
        assert(parse_field(body).1 == tail1);
        lemma_parse_field_exact(esc(p0.path), esc(p0.etag) + encode_parts(rest));
        assert(tail1 =~= esc(p0.path) + seq![' '] + (esc(p0.etag) + encode_parts(rest)));
        let r2 = esc(p0.etag) + encode_parts(rest);
        if rest.len() == 0 {
            assert(r2 =~= esc(p0.etag));
            lemma_parse_field_exact(esc(p0.etag), Seq::<char>::empty());
            assert(parse_field(r2).0 == esc(p0.etag));
            assert(parse_field(r2).1 == Seq::<char>::empty());
            assert(parse_field(r2).1 =~= parts_body(rest));
        } else {
            lemma_encode_parts_left(rest);
            assert(r2 =~= esc(p0.etag) + seq![' '] + parts_body(rest));
            lemma_parse_field_exact(esc(p0.etag), parts_body(rest));
            assert(parse_field(r2).0 == esc(p0.etag));
            assert(parse_field(r2).1 == parts_body(rest));
        }
        assert(body.len() > 0);
        let num = parse_dec_i64(parse_field(body).0)->0;
        assert(num == p0.number as int);
        assert((num as i64) == p0.number);
        let rebuilt = PartView { number: num as i64, path: p0.path, etag: p0.etag };
        assert(rebuilt == p0);
        assert(decode_parts(body) == Some(seq![rebuilt] + rest));
        assert(seq![rebuilt] + rest =~= parts);
    }
}

/// Reading a record back undoes writing it: every operation survives the
/// round trip through its record, so a log written by this codec replays
/// into exactly the operations that were committed to it.
#[verifier::rlimit(100)]
pub proof fn lemma_decode_encode(op: OperationView)
    ensures
        decode_op(encode_op(op)) == Some(op),
{
    reveal_strlit("parts");
    reveal_strlit("started");
    reveal_strlit("started ");
    reveal_strlit("failed-start");
    reveal_strlit("failed-start ");
    reveal_strlit("uploaded");
    reveal_strlit("uploaded ");
    reveal_strlit("failed-part");
    reveal_strlit("failed-part ");
    reveal_strlit("failed-complete");
    reveal_strlit("failed-complete ");
    reveal_strlit("completed");
    reveal_strlit("failed-abort");
    reveal_strlit("failed-abort ");
    reveal_strlit("aborted");
    let s = encode_op(op);
    match op {
        OperationView::ConfiguredParts(parts) => {
            if parts.len() == 0 {
                assert(encode_parts(parts) =~= Seq::<char>::empty());
                assert(s =~= "parts"@);
                lemma_parse_field_exact("parts"@, Seq::<char>::empty());
                assert(parse_field(s).0 == "parts"@);
                assert(parse_field(s).1 =~= Seq::<char>::empty());
                lemma_decode_parts_roundtrip(parts);
                assert(parts_body(parts) =~= Seq::<char>::empty());
                assert(decode_parts(parse_field(s).1) == Some(parts));
                assert(decode_op(s) == Some(op));
            } else {
                lemma_encode_parts_left(parts);
                assert(s =~= "parts"@ + seq![' '] + parts_body(parts));
                lemma_parse_field_exact("parts"@, parts_body(parts));
                lemma_decode_parts_roundtrip(parts);
                assert(parse_field(s).0 == "parts"@);
                assert(parse_field(s).1 == parts_body(parts));
                assert(decode_parts(parse_field(s).1) == Some(parts));
                assert(decode_op(s) == Some(op));
            }
        },
        OperationView::Started { upload_id } => {
            assert(s =~= "started"@ + seq![' '] + esc(upload_id));
            lemma_parse_field_exact("started"@, esc(upload_id));
            lemma_unesc_esc(upload_id);
            assert(decode_op(s) == Some(op));
        },
        OperationView::FailedStart { attempt, msg } => {
            assert(s =~= "failed-start"@ + seq![' '] + (dec_rep(attempt as int) + seq![' ']
                + esc(msg)));
            lemma_parse_field_exact("failed-start"@, dec_rep(attempt as int) + seq![' '] + esc(msg));
            lemma_attempt_msg_roundtrip(attempt, msg);
            assert(decode_op(s) == Some(op));
        },
        OperationView::UploadedPart { index, etag } => {
            assert(s =~= "uploaded"@ + seq![' '] + (dec_rep(index as int) + seq![' '] + esc(etag)));
            lemma_parse_field_exact("uploaded"@, dec_rep(index as int) + seq![' '] + esc(etag));
            lemma_dec_rep_val(index as int);
            lemma_digits_no_separator(dec_rep(index as int));
            lemma_parse_field_exact(dec_rep(index as int), esc(etag));
            lemma_unesc_esc(etag);
            assert(decode_op(s) == Some(op));
        },
        OperationView::FailedPart { index, attempt, msg } => {
            let tail = dec_rep(attempt as int) + seq![' '] + esc(msg);
            assert(s =~= "failed-part"@ + seq![' '] + (dec_rep(index as int) + seq![' '] + tail));
            lemma_parse_field_exact("failed-part"@, dec_rep(index as int) + seq![' '] + tail);
            lemma_dec_rep_val(index as int);
            lemma_digits_no_separator(dec_rep(index as int));
            lemma_parse_field_exact(dec_rep(index as int), tail);
            lemma_attempt_msg_roundtrip(attempt, msg);
            assert(decode_op(s) == Some(op));
        },
        OperationView::FailedComplete { attempt, msg } => {
            assert(s =~= "failed-complete"@ + seq![' '] + (dec_rep(attempt as int) + seq![' ']
                + esc(msg)));
            lemma_parse_field_exact(
                "failed-complete"@,
                dec_rep(attempt as int) + seq![' '] + esc(msg),
            );
            lemma_attempt_msg_roundtrip(attempt, msg);
            assert(decode_op(s) == Some(op));
        },
        OperationView::Completed => {
            lemma_parse_field_exact("completed"@, Seq::<char>::empty());
            assert(parse_field(s).0 == "completed"@);
            assert(decode_op(s) == Some(op));
        },
        OperationView::FailedAbort { attempt, msg } => {
            assert(s =~= "failed-abort"@ + seq![' '] + (dec_rep(attempt as int) + seq![' ']
                + esc(msg)));
            lemma_parse_field_exact(
                "failed-abort"@,
                dec_rep(attempt as int) + seq![' '] + esc(msg),
            );
            lemma_attempt_msg_roundtrip(attempt, msg);
            assert("failed-abort"@[7] == 'a' && "failed-start"@[7] == 's');
            assert(decode_op(s) == Some(op));
        },
        OperationView::Aborted => {
            lemma_parse_field_exact("aborted"@, Seq::<char>::empty());
            assert(parse_field(s).0 == "aborted"@);
            assert(decode_op(s) == Some(op));
        },
    }
}

/// A character sequence that newline-delimited framing can carry whole.
pub open spec fn line_safe(s: Seq<char>) -> bool {
    forall|i: int| 0 <= i < s.len() ==> #[trigger] s[i] != '\n'
}

proof fn lemma_line_safe_append(a: Seq<char>, b: Seq<char>)
    requires
        line_safe(a),
        line_safe(b),
    ensures
        line_safe(a + b),
{
    assert forall|i: int| 0 <= i < (a + b).len() implies (a + b)[i] != '\n' by {
        if i < a.len() {
            assert((a + b)[i] == a[i]);
        } else {
            assert((a + b)[i] == b[i - a.len()]);
        }
    }
}

proof fn lemma_encode_parts_line_safe(parts: Seq<PartView>)
    ensures
        line_safe(encode_parts(parts)),
    decreases parts.len(),
{
    if parts.len() == 0 {
    } else {
        lemma_encode_parts_line_safe(parts.drop_last());
        let p = parts.last();
        lemma_dec_rep_i64_roundtrip(p.number as int);
        lemma_esc_no_separator(p.path);
        lemma_esc_no_separator(p.etag);
        assert(line_safe(seq![' ']));
        lemma_line_safe_append(seq![' '], dec_rep_i64(p.number as int));
        lemma_line_safe_append(seq![' '] + dec_rep_i64(p.number as int), seq![' ']);
        lemma_line_safe_append(seq![' '] + dec_rep_i64(p.number as int) + seq![' '], esc(p.path));
        lemma_line_safe_append(
            seq![' '] + dec_rep_i64(p.number as int) + seq![' '] + esc(p.path),
            seq![' '],
        );
        lemma_line_safe_append(
            seq![' '] + dec_rep_i64(p.number as int) + seq![' '] + esc(p.path) + seq![' '],
            esc(p.etag),
        );
        lemma_line_safe_append(encode_parts(parts.drop_last()), encode_part(p));
    }
}

/// Framing safety: no record contains a newline, so writing one record per
/// line can never split a record in two nor run two records together.
pub proof fn lemma_record_line_safe(op: OperationView)
    ensures
        line_safe(encode_op(op)),
{
    reveal_strlit("parts");
    reveal_strlit("started ");
    reveal_strlit("failed-start ");
    reveal_strlit("uploaded ");
    reveal_strlit("failed-part ");
    reveal_strlit("failed-complete ");
    reveal_strlit("completed");
    reveal_strlit("failed-abort ");
    reveal_strlit("aborted");
    match op {
        OperationView::ConfiguredParts(parts) => {
            lemma_encode_parts_line_safe(parts);
            lemma_line_safe_append("parts"@, encode_parts(parts));
        },
        OperationView::Started { upload_id } => {
            lemma_esc_no_separator(upload_id);
            lemma_line_safe_append("started "@, esc(upload_id));
        },
        OperationView::FailedStart { attempt, msg } => {
            lemma_dec_rep_val(attempt as int);
            lemma_digits_no_separator(dec_rep(attempt as int));
            lemma_esc_no_separator(msg);
            lemma_line_safe_append("failed-start "@, dec_rep(attempt as int));
            lemma_line_safe_append("failed-start "@ + dec_rep(attempt as int), seq![' ']);
            lemma_line_safe_append(
                "failed-start "@ + dec_rep(attempt as int) + seq![' '],
                esc(msg),
            );
        },
        OperationView::UploadedPart { index, etag } => {
            lemma_dec_rep_val(index as int);
            lemma_digits_no_separator(dec_rep(index as int));
            lemma_esc_no_separator(etag);
            lemma_line_safe_append("uploaded "@, dec_rep(index as int));
            lemma_line_safe_append("uploaded "@ + dec_rep(index as int), seq![' ']);
            lemma_line_safe_append("uploaded "@ + dec_rep(index as int) + seq![' '], esc(etag));
        },
        OperationView::FailedPart { index, attempt, msg } => {
            lemma_dec_rep_val(index as int);
            lemma_digits_no_separator(dec_rep(index as int));
            lemma_dec_rep_val(attempt as int);
            lemma_digits_no_separator(dec_rep(attempt as int));
            lemma_esc_no_separator(msg);
            lemma_line_safe_append("failed-part "@, dec_rep(index as int));
            lemma_line_safe_append("failed-part "@ + dec_rep(index as int), seq![' ']);
            lemma_line_safe_append(
                "failed-part "@ + dec_rep(index as int) + seq![' '],
                dec_rep(attempt as int),
            );
            lemma_line_safe_append(
                "failed-part "@ + dec_rep(index as int) + seq![' '] + dec_rep(attempt as int),
                seq![' '],
            );
            lemma_line_safe_append(
                "failed-part "@ + dec_rep(index as int) + seq![' '] + dec_rep(attempt as int)
                    + seq![' '],
                esc(msg),
            );
        },
        OperationView::FailedComplete { attempt, msg } => {
            lemma_dec_rep_val(attempt as int);
            lemma_digits_no_separator(dec_rep(attempt as int));
            lemma_esc_no_separator(msg);
            lemma_line_safe_append("failed-complete "@, dec_rep(attempt as int));
            lemma_line_safe_append("failed-complete "@ + dec_rep(attempt as int), seq![' ']);
            lemma_line_safe_append(
                "failed-complete "@ + dec_rep(attempt as int) + seq![' '],
                esc(msg),
            );
        },
        OperationView::Completed => {
        },
        OperationView::FailedAbort { attempt, msg } => {
            lemma_dec_rep_val(attempt as int);
            lemma_digits_no_separator(dec_rep(attempt as int));
            lemma_esc_no_separator(msg);
            lemma_line_safe_append("failed-abort "@, dec_rep(attempt as int));
            lemma_line_safe_append("failed-abort "@ + dec_rep(attempt as int), seq![' ']);
            lemma_line_safe_append(
                "failed-abort "@ + dec_rep(attempt as int) + seq![' '],
                esc(msg),
            );
        },
        OperationView::Aborted => {
        },
    }
}

/// Read one record back into the operation it commits. Exactly the records
/// the specification's reading accepts come back, with exactly that
/// operation; anything else is rejected, which makes a corrupt log a fatal
/// condition rather than a skippable one.
pub fn decode_record(line: &str) -> (r: Option<Operation>)
    ensures
        match r {
            Some(op) => decode_op(line@) == Some(op@),
            None => decode_op(line@) is None,
        },
{
    let (tag, rest) = split_first(line);
    if tag == String::from_str("parts") {
        match parse_parts_list(rest.as_str()) {
            Some(parts) => Some(Operation::ConfiguredParts(parts)),
            None => None,
        }
    } else if tag == String::from_str("started") {
        match unescape(rest.as_str()) {
            Some(upload_id) => Some(Operation::Started { upload_id }),
            None => None,
        }
    } else if tag == String::from_str("failed-start") {
        match split_attempt_msg(rest.as_str()) {
            Some(am) => Some(Operation::FailedStart { attempt: am.0, msg: am.1 }),
            None => None,
        }
    } else if tag == String::from_str("uploaded") {
        let (f1, r1) = split_first(rest.as_str());
        match parse_u64_digits(f1.as_str()) {
            Some(v) => {
                if v <= usize::MAX as u64 {
                    match unescape(r1.as_str()) {
                        Some(etag) => Some(Operation::UploadedPart { index: v as usize, etag }),
                        None => None,
                    }
                } else {
                    None
                }
            },
            None => None,
        }
    } else if tag == String::from_str("failed-part") {
        let (f1, r1) = split_first(rest.as_str());
        match parse_u64_digits(f1.as_str()) {
            Some(v) => {
                if v <= usize::MAX as u64 {
                    match split_attempt_msg(r1.as_str()) {
                        Some(am) => Some(
                            Operation::FailedPart { index: v as usize, attempt: am.0, msg: am.1 },
                        ),
                        None => None,
                    }
                } else {
                    None
                }
            },
            None => None,
        }
    } else if tag == String::from_str("failed-complete") {
        match split_attempt_msg(rest.as_str()) {
            Some(am) => Some(Operation::FailedComplete { attempt: am.0, msg: am.1 }),
            None => None,
        }
    } else if tag == String::from_str("completed") {
        if rest.as_str().unicode_len() == 0 {
            Some(Operation::Completed)
        } else {
            None
        }
    } else if tag == String::from_str("failed-abort") {
        match split_attempt_msg(rest.as_str()) {
            Some(am) => Some(Operation::FailedAbort { attempt: am.0, msg: am.1 }),
            None => None,
        }
    } else if tag == String::from_str("aborted") {
        if rest.as_str().unicode_len() == 0 {
            Some(Operation::Aborted)
        } else {
            None
        }
    } else {
        None
    }
}

} // verus!
