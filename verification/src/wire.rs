use vstd::prelude::*;

use crate::job_description::{JobDescription, JobResult, Runtime};
use crate::job_transfer::TransferToServer;
use vstd::string::StringExecFns;
use vstd::string::StrSliceExecFns;

verus! {

/// The JSON escape of one character: the five common short escapes, a
/// `\u00XX` form for every other control character, and every other
/// character stands for itself.
pub open spec fn escape_char(c: char) -> Seq<char> {
    if c == '"' {
        seq!['\\', '"']
    } else if c == '\\' {
        seq!['\\', '\\']
    } else if c == '\n' {
        seq!['\\', 'n']
    } else if c == '\r' {
        seq!['\\', 'r']
    } else if c == '\t' {
        seq!['\\', 't']
    } else if (c as u32) < 32 {
        seq!['\\', 'u', '0', '0', hex_digit((c as u32 / 16) as int), hex_digit(
            (c as u32 % 16) as int,
        )]
    } else {
        seq![c]
    }
}

/// The lowercase hexadecimal digit for a value below sixteen.
pub open spec fn hex_digit(n: int) -> char {
    if n < 10 {
        dec_digit(n)
    } else if n == 10 {
        'a'
    } else if n == 11 {
        'b'
    } else if n == 12 {
        'c'
    } else if n == 13 {
        'd'
    } else if n == 14 {
        'e'
    } else {
        'f'
    }
}

/// The JSON escape of a whole text.
pub open spec fn json_escaped(s: Seq<char>) -> Seq<char>
    decreases s.len(),
{
    if s.len() == 0 {
        Seq::empty()
    } else {
        escape_char(s.first()) + json_escaped(s.drop_first())
    }
}

/// The decimal digit for a value below ten.
pub open spec fn dec_digit(n: int) -> char {
    if n == 0 {
        '0'
    } else if n == 1 {
        '1'
    } else if n == 2 {
        '2'
    } else if n == 3 {
        '3'
    } else if n == 4 {
        '4'
    } else if n == 5 {
        '5'
    } else if n == 6 {
        '6'
    } else if n == 7 {
        '7'
    } else if n == 8 {
        '8'
    } else {
        '9'
    }
}

/// The usual decimal rendering of a nonnegative integer, most
/// significant digit first, no leading zeros.
pub open spec fn dec_of(n: int) -> Seq<char>
    decreases n,
{
    if n < 10 {
        seq![dec_digit(n)]
    } else {
        dec_of(n / 10) + seq![dec_digit(n % 10)]
    }
}

/// The wire form of an optional runtime.
pub open spec fn json_of_runtime(r: Option<Runtime>) -> Seq<char> {
    match r {
        Option::None => "null"@,
        Option::Some(rt) => "{\"secs\":"@ + dec_of(rt.secs as int) + ",\"nanos\":"@ + dec_of(
            rt.nanos as int,
        ) + "}"@,
    }
}

/// The wire form of a result.
pub open spec fn json_of_result(r: JobResult) -> Seq<char> {
    match r {
        JobResult::Infeasible => "\"Infeasible\""@,
        JobResult::Timeout => "\"Timeout\""@,
        JobResult::Valid { score, solution, sdigest } => "{\"Valid\":{\"score\":"@ + dec_of(
            score as int,
        ) + ",\"solution\":\""@ + json_escaped(solution@) + "\",\"sdigest\":\""@ + json_escaped(
            sdigest@,
        ) + "\"}}"@,
    }
}

/// The wire form of one record.
pub open spec fn json_of(d: JobDescription) -> Seq<char> {
    "{\"idigest\":\""@ + json_escaped(d.idigest@) + "\",\"result\":"@ + json_of_result(d.result)
        + ",\"runtime\":"@ + json_of_runtime(d.runtime) + "}"@
}

/// The wire form of a whole batch message.
pub open spec fn json_of_batch(jobs: Seq<JobDescription>) -> Seq<char>
    decreases jobs.len(),
{
    if jobs.len() == 0 {
        "{\"jobs\":[]}"@
    } else {
        "{\"jobs\":["@ + json_of_jobs(jobs) + "]}"@
    }
}

/// The comma-separated record list inside a batch message.
pub open spec fn json_of_jobs(jobs: Seq<JobDescription>) -> Seq<char>
    decreases jobs.len(),
{
    if jobs.len() == 0 {
        Seq::empty()
    } else if jobs.len() == 1 {
        json_of(jobs[0])
    } else {
        json_of(jobs[0]) + ","@ + json_of_jobs(jobs.drop_first())
    }
}

/// One decimal digit as a string slice.
fn digit_str(d: u64) -> (r: &'static str)
    requires
        d < 10,
    ensures
        r@ == seq![dec_digit(d as int)],
{
    proof {
        reveal_strlit("0");
        reveal_strlit("1");
        reveal_strlit("2");
        reveal_strlit("3");
        reveal_strlit("4");
        reveal_strlit("5");
        reveal_strlit("6");
        reveal_strlit("7");
        reveal_strlit("8");
        reveal_strlit("9");
    }
    match d {
        0 => "0",
        1 => "1",
        2 => "2",
        3 => "3",
        4 => "4",
        5 => "5",
        6 => "6",
        7 => "7",
        8 => "8",
        _ => {
            proof {
                assert(d == 9);
            }
            "9"
        },
    }
}

/// One lowercase hexadecimal digit as a string slice.
fn hex_digit_str(d: u32) -> (r: &'static str)
    requires
        d < 16,
    ensures
        r@ == seq![hex_digit(d as int)],
{
    proof {
        reveal_strlit("0");
        reveal_strlit("1");
        reveal_strlit("2");
        reveal_strlit("3");
        reveal_strlit("4");
        reveal_strlit("5");
        reveal_strlit("6");
        reveal_strlit("7");
        reveal_strlit("8");
        reveal_strlit("9");
        reveal_strlit("a");
        reveal_strlit("b");
        reveal_strlit("c");
        reveal_strlit("d");
        reveal_strlit("e");
        reveal_strlit("f");
    }
    match d {
        0 => "0",
        1 => "1",
        2 => "2",
        3 => "3",
        4 => "4",
        5 => "5",
        6 => "6",
        7 => "7",
        8 => "8",
        9 => "9",
        10 => "a",
        11 => "b",
        12 => "c",
        13 => "d",
        14 => "e",
        _ => {
            proof {
                assert(d == 15);
            }
            "f"
        },
    }
}

/// The control character with the given code, as a one-character string
/// slice; the three control characters with short escapes are excluded.
fn control_str(val: u32) -> (r: &'static str)
    requires
        val < 32,
        val != 9,
        val != 10,
        val != 13,
    ensures
        r@.len() == 1,
        r@[0] as u32 == val,
{
    match val {
        0 => {
            proof {
                reveal_strlit("\u{00}");
                assert("\u{00}"@ =~= seq!['\u{00}']);
            }
            "\u{00}"
        },
        1 => {
            proof {
                reveal_strlit("\u{01}");
                assert("\u{01}"@ =~= seq!['\u{01}']);
            }
            "\u{01}"
        },
        2 => {
            proof {
                reveal_strlit("\u{02}");
                assert("\u{02}"@ =~= seq!['\u{02}']);
            }
            "\u{02}"
        },
        3 => {
            proof {
                reveal_strlit("\u{03}");
                assert("\u{03}"@ =~= seq!['\u{03}']);
            }
            "\u{03}"
        },
        4 => {
            proof {
                reveal_strlit("\u{04}");
                assert("\u{04}"@ =~= seq!['\u{04}']);
            }
            "\u{04}"
        },
        5 => {
            proof {
                reveal_strlit("\u{05}");
                assert("\u{05}"@ =~= seq!['\u{05}']);
            }
            "\u{05}"
        },
        6 => {
            proof {
                reveal_strlit("\u{06}");
                assert("\u{06}"@ =~= seq!['\u{06}']);
            }
            "\u{06}"
        },
        7 => {
            proof {
                reveal_strlit("\u{07}");
                assert("\u{07}"@ =~= seq!['\u{07}']);
            }
            "\u{07}"
        },
        8 => {
            proof {
                reveal_strlit("\u{08}");
                assert("\u{08}"@ =~= seq!['\u{08}']);
            }
            "\u{08}"
        },
        11 => {
            proof {
                reveal_strlit("\u{0b}");
                assert("\u{0b}"@ =~= seq!['\u{0b}']);
            }
            "\u{0b}"
        },
        12 => {
            proof {
                reveal_strlit("\u{0c}");
                assert("\u{0c}"@ =~= seq!['\u{0c}']);
            }
            "\u{0c}"
        },
        14 => {
            proof {
                reveal_strlit("\u{0e}");
                assert("\u{0e}"@ =~= seq!['\u{0e}']);
            }
            "\u{0e}"
        },
        15 => {
            proof {
                reveal_strlit("\u{0f}");
                assert("\u{0f}"@ =~= seq!['\u{0f}']);
            }
            "\u{0f}"
        },
        16 => {
            proof {
                reveal_strlit("\u{10}");
                assert("\u{10}"@ =~= seq!['\u{10}']);
            }
            "\u{10}"
        },
        17 => {
            proof {
                reveal_strlit("\u{11}");
                assert("\u{11}"@ =~= seq!['\u{11}']);
            }
            "\u{11}"
        },
        18 => {
            proof {
                reveal_strlit("\u{12}");
                assert("\u{12}"@ =~= seq!['\u{12}']);
            }
            "\u{12}"
        },
        19 => {
            proof {
                reveal_strlit("\u{13}");
                assert("\u{13}"@ =~= seq!['\u{13}']);
            }
            "\u{13}"
        },
        20 => {
            proof {
                reveal_strlit("\u{14}");
                assert("\u{14}"@ =~= seq!['\u{14}']);
            }
            "\u{14}"
        },
        21 => {
            proof {
                reveal_strlit("\u{15}");
                assert("\u{15}"@ =~= seq!['\u{15}']);
            }
            "\u{15}"
        },
        22 => {
            proof {
                reveal_strlit("\u{16}");
                assert("\u{16}"@ =~= seq!['\u{16}']);
            }
            "\u{16}"
        },
        23 => {
            proof {
                reveal_strlit("\u{17}");
                assert("\u{17}"@ =~= seq!['\u{17}']);
            }
            "\u{17}"
        },
        24 => {
            proof {
                reveal_strlit("\u{18}");
                assert("\u{18}"@ =~= seq!['\u{18}']);
            }
            "\u{18}"
        },
        25 => {
            proof {
                reveal_strlit("\u{19}");
                assert("\u{19}"@ =~= seq!['\u{19}']);
            }
            "\u{19}"
        },
        26 => {
            proof {
                reveal_strlit("\u{1a}");
                assert("\u{1a}"@ =~= seq!['\u{1a}']);
            }
            "\u{1a}"
        },
        27 => {
            proof {
                reveal_strlit("\u{1b}");
                assert("\u{1b}"@ =~= seq!['\u{1b}']);
            }
            "\u{1b}"
        },
        28 => {
            proof {
                reveal_strlit("\u{1c}");
                assert("\u{1c}"@ =~= seq!['\u{1c}']);
            }
            "\u{1c}"
        },
        29 => {
            proof {
                reveal_strlit("\u{1d}");
                assert("\u{1d}"@ =~= seq!['\u{1d}']);
            }
            "\u{1d}"
        },
        30 => {
            proof {
                reveal_strlit("\u{1e}");
                assert("\u{1e}"@ =~= seq!['\u{1e}']);
            }
            "\u{1e}"
        },
        31 => {
            proof {
                reveal_strlit("\u{1f}");
                assert("\u{1f}"@ =~= seq!['\u{1f}']);
            }
            "\u{1f}"
        },
        _ => {
            proof {
                assert(false);
            }
            ""
        },
    }
}

/// Appends the decimal rendering of `n`.
fn append_dec(out: &mut String, n: u64)
    ensures
        final(out)@ == old(out)@ + dec_of(n as int),
    decreases n,
{
    if n < 10 {
        out.append(digit_str(n));
    } else {
        append_dec(out, n / 10);
        out.append(digit_str(n % 10));
        proof {
            assert(old(out)@ + dec_of(n as int / 10) + seq![dec_digit(n as int % 10)] =~= old(
                out,
            )@ + (dec_of(n as int / 10) + seq![dec_digit(n as int % 10)]));
        }
    }
}

/// Appends the JSON escape of a text.
fn append_escaped(out: &mut String, s: &str)
    ensures
        final(out)@ == old(out)@ + json_escaped(s@),
{
    let n = s.unicode_len();
    let mut i: usize = 0;
    proof {
        assert(s@.take(0) =~= Seq::<char>::empty());
        assert(old(out)@ + json_escaped(s@.take(0)) =~= old(out)@);
    }
    while i < n
        invariant
            n == s@.len(),
            i <= n,
            out@ == old(out)@ + json_escaped(s@.take(i as int)),
        decreases n - i,
    {
        let c = s.get_char(i);
        if c == '"' {
            out.append("\\\"");
        } else if c == '\\' {
            out.append("\\\\");
        } else if c == '\n' {
            out.append("\\n");
        } else if c == '\r' {
            out.append("\\r");
        } else if c == '\t' {
            out.append("\\t");
        } else if (c as u32) < 32 {
            let u = c as u32;
            out.append("\\u00");
            out.append(hex_digit_str(u / 16));
            out.append(hex_digit_str(u % 16));
            proof {
                reveal_strlit("\\u00");
                assert("\\u00"@ =~= seq!['\\', 'u', '0', '0']);
                assert(out@ =~= old(out)@ + json_escaped(s@.take(i as int)) + escape_char(c));
            }
        } else {
            let piece = s.substring_char(i, i + 1);
            out.append(piece);
            proof {
                assert(piece@ =~= seq![c]);
            }
        }
        proof {
            reveal_strlit("\\\"");
            reveal_strlit("\\\\");
            reveal_strlit("\\n");
            reveal_strlit("\\r");
            reveal_strlit("\\t");
            assert("\\\""@ =~= seq!['\\', '"']);
            assert("\\\\"@ =~= seq!['\\', '\\']);
            assert("\\n"@ =~= seq!['\\', 'n']);
            assert("\\r"@ =~= seq!['\\', 'r']);
            assert("\\t"@ =~= seq!['\\', 't']);
            lemma_json_escaped_push(s@.take(i as int), c);
            assert(s@.take(i + 1) =~= s@.take(i as int).push(c));
            assert(out@ =~= old(out)@ + json_escaped(s@.take(i + 1)));
        }
        i += 1;
    }
    proof {
        assert(s@.take(n as int) =~= s@);
    }
}

/// Escaping one more character appends that character's escape.
pub proof fn lemma_json_escaped_push(s: Seq<char>, c: char)
    ensures
        json_escaped(s.push(c)) == json_escaped(s) + escape_char(c),
    decreases s.len(),
{
    if s.len() == 0 {
        assert(s.push(c).first() == c);
        assert(s.push(c).drop_first() =~= Seq::<char>::empty());
        assert(json_escaped(Seq::<char>::empty()) == Seq::<char>::empty());
        assert(escape_char(c) + Seq::<char>::empty() =~= escape_char(c));
        assert(json_escaped(s.push(c)) =~= escape_char(c));
        assert(json_escaped(s) + escape_char(c) =~= escape_char(c));
    } else {
        assert(s.push(c).first() == s.first());
        assert(s.push(c).drop_first() =~= s.drop_first().push(c));
        lemma_json_escaped_push(s.drop_first(), c);
        assert(escape_char(s.first()) + (json_escaped(s.drop_first()) + escape_char(c)) =~= (
        escape_char(s.first()) + json_escaped(s.drop_first())) + escape_char(c));
    }
}

/// Encodes one record into its canonical wire form.
#[verifier::rlimit(100)]
pub fn encode_record(d: &JobDescription) -> (r: String)
    ensures
        r@ == json_of(*d),
{
    let mut out = String::new();
    out.append("{\"idigest\":\"");
    append_escaped(&mut out, d.idigest.as_str());
    out.append("\",\"result\":");
    match &d.result {
        JobResult::Infeasible => {
            out.append("\"Infeasible\"");
        },
        JobResult::Timeout => {
            out.append("\"Timeout\"");
        },
        JobResult::Valid { score, solution, sdigest } => {
            out.append("{\"Valid\":{\"score\":");
            append_dec(&mut out, *score as u64);
            out.append(",\"solution\":\"");
            append_escaped(&mut out, solution.as_str());
            out.append("\",\"sdigest\":\"");
            append_escaped(&mut out, sdigest.as_str());
            out.append("\"}}");
        },
    }
    out.append(",\"runtime\":");
    match &d.runtime {
        Option::None => {
            out.append("null");
        },
        Option::Some(rt) => {
            out.append("{\"secs\":");
            append_dec(&mut out, rt.secs);
            out.append(",\"nanos\":");
            append_dec(&mut out, rt.nanos as u64);
            out.append("}");
        },
    }
    out.append("}");
    proof {
        assert(out@ =~= json_of(*d));
    }
    out
}

/// Encodes a whole batch message into its canonical wire form.
pub fn encode_batch(t: &TransferToServer) -> (r: String)
    ensures
        r@ == json_of_batch(t.jobs@),
{
    let mut out = String::new();
    out.append("{\"jobs\":[");
    let n = t.jobs.len();
    let mut i: usize = 0;
    while i < n
        invariant
            n == t.jobs@.len(),
            i <= n,
            i == 0 ==> out@ == "{\"jobs\":["@,
            i > 0 ==> out@ == "{\"jobs\":["@ + json_of_jobs(t.jobs@.take(i as int)),
        decreases n - i,
    {
        if i > 0 {
            out.append(",");
        }
        let piece = encode_record(&t.jobs[i]);
        out.append(piece.as_str());
        proof {
            assert(t.jobs@.take(i + 1) =~= t.jobs@.take(i as int).push(t.jobs@[i as int]));
            if i == 0 {
                assert(json_of_jobs(t.jobs@.take(1int)) == json_of(t.jobs@.take(1int)[0]));
                assert(out@ =~= "{\"jobs\":["@ + json_of_jobs(t.jobs@.take(1int)));
            } else {
                lemma_json_of_jobs_push(t.jobs@.take(i as int), t.jobs@[i as int]);
                assert(out@ =~= "{\"jobs\":["@ + json_of_jobs(t.jobs@.take(i + 1)));
            }
        }
        i += 1;
    }
    out.append("]}");
    proof {
        assert(t.jobs@.take(n as int) =~= t.jobs@);
        reveal_strlit("{\"jobs\":[");
        reveal_strlit("]}");
        reveal_strlit("{\"jobs\":[]}");
        if n == 0 {
            assert(out@ =~= "{\"jobs\":[]}"@);
        } else {
            assert(out@ =~= json_of_batch(t.jobs@));
        }
    }
    out
}

/// Whether a character is a decimal digit.
pub open spec fn is_dec_digit(c: char) -> bool {
    '0' as u32 <= c as u32 && c as u32 <= '9' as u32
}

/// The value of a decimal digit character.
pub open spec fn digit_val(c: char) -> int {
    c as u32 - '0' as u32
}

/// The number a digit string denotes.
pub open spec fn num_of(d: Seq<char>) -> int
    decreases d.len(),
{
    if d.len() == 0 {
        0
    } else {
        num_of(d.drop_last()) * 10 + digit_val(d.last())
    }
}

/// A digit string with a nonzero leading digit denotes a positive number.
proof fn lemma_num_of_pos(d: Seq<char>)
    requires
        d.len() >= 1,
        forall|k: int| 0 <= k < d.len() ==> is_dec_digit(#[trigger] d[k]),
        digit_val(d[0]) >= 1,
    ensures
        num_of(d) >= 1,
    decreases d.len(),
{
    if d.len() == 1 {
        assert(d.last() == d[0]);
        assert(d.drop_last().len() == 0);
    } else {
        assert(d.drop_last()[0] == d[0]);
        lemma_num_of_pos(d.drop_last());
        assert(digit_val(d.last()) >= 0);
    }
}

/// A digit string without a leading zero is the decimal rendering of
/// its value.
proof fn lemma_canonical_digits(d: Seq<char>)
    requires
        d.len() >= 1,
        forall|k: int| 0 <= k < d.len() ==> is_dec_digit(#[trigger] d[k]),
        digit_val(d[0]) == 0 ==> d.len() == 1,
    ensures
        dec_of(num_of(d)) == d,
    decreases d.len(),
{
    if d.len() == 1 {
        assert(is_dec_digit(d[0]));
        assert(d.last() == d[0]);
        assert(d.drop_last().len() == 0);
        assert(num_of(d.drop_last()) == 0);
        assert(num_of(d) == digit_val(d[0]));
        assert(0 <= num_of(d) < 10);
        assert(dec_digit(digit_val(d[0])) as u32 == d[0] as u32);
        crate::lex::lemma_char_cast_inj(dec_digit(digit_val(d[0])), d[0]);
        assert(dec_of(num_of(d)) =~= d);
    } else {
        let dd = d.drop_last();
        assert(dd[0] == d[0]);
        assert(forall|k: int| 0 <= k < dd.len() ==> is_dec_digit(#[trigger] dd[k]));
        assert(digit_val(d[0]) >= 1);
        lemma_num_of_pos(dd);
        lemma_canonical_digits(dd);
        assert(0 <= digit_val(d.last()) < 10);
        assert(num_of(d) == num_of(dd) * 10 + digit_val(d.last()));
        assert(num_of(d) / 10 == num_of(dd) && num_of(d) % 10 == digit_val(d.last()))
            by (nonlinear_arith)
            requires
                num_of(d) == num_of(dd) * 10 + digit_val(d.last()),
                0 <= digit_val(d.last()) < 10,
                num_of(dd) >= 1,
        ;
        assert(num_of(d) >= 10);
        assert(dec_digit(digit_val(d.last())) as u32 == d.last() as u32);
        crate::lex::lemma_char_cast_inj(dec_digit(digit_val(d.last())), d.last());
        assert(dec_of(num_of(d)) =~= dd + seq![d.last()]);
        assert(dd + seq![d.last()] =~= d);
    }
}

/// The value of one canonical (lowercase) hexadecimal digit.
fn hex_val(c: char) -> (r: Option<u32>)
    ensures
        r matches Some(v) ==> v < 16 && hex_digit(v as int) == c,
{
    let u = c as u32;
    if '0' as u32 <= u && u <= '9' as u32 {
        let v = u - '0' as u32;
        proof {
            assert(hex_digit(v as int) as u32 == c as u32);
            crate::lex::lemma_char_cast_inj(hex_digit(v as int), c);
        }
        Some(v)
    } else if 'a' as u32 <= u && u <= 'f' as u32 {
        let v = 10 + (u - 'a' as u32);
        proof {
            assert(hex_digit(v as int) as u32 == c as u32);
            crate::lex::lemma_char_cast_inj(hex_digit(v as int), c);
        }
        Some(v)
    } else {
        None
    }
}

/// Advances past `lit` if it occurs at position `i` of `s`; what was
/// consumed is exactly `lit`.
fn expect_lit(s: &str, i: usize, lit: &str) -> (r: Option<usize>)
    requires
        i <= s@.len(),
    ensures
        r matches Some(j) ==> i + lit@.len() == j && j <= s@.len() && s@.subrange(
            i as int,
            j as int,
        ) == lit@,
{
    let m = lit.unicode_len();
    let n = s.unicode_len();
    if m > n - i {
        return None;
    }
    let mut k: usize = 0;
    while k < m
        invariant
            m == lit@.len(),
            n == s@.len(),
            i + m <= n,
            k <= m,
            forall|t: int| 0 <= t < k ==> s@[i + t] == lit@[t],
        decreases m - k,
    {
        if s.get_char(i + k) != lit.get_char(k) {
            return None;
        }
        k += 1;
    }
    proof {
        assert(s@.subrange(i as int, (i + m) as int) =~= lit@);
    }
    Some(i + m)
}

/// Parses a quoted, escaped JSON string starting at `i`; returns the
/// unescaped content and the position after the closing quote. What was
/// consumed is exactly the canonical escape of the content between the
/// quotes: control characters must be escaped, `\u00XX` uses lowercase
/// hex and stands only for the control characters without a short
/// escape, and an unknown escape is rejected.
fn parse_quoted(s: &str, i: usize) -> (r: Option<(String, usize)>)
    requires
        i <= s@.len(),
    ensures
        r matches Some(p) ==> i < p.1 <= s@.len() && s@.subrange(i as int, p.1 as int) == seq!['"']
            + json_escaped(p.0@) + seq!['"'],
{
    let n = s.unicode_len();
    if i >= n || s.get_char(i) != '"' {
        return None;
    }
    let mut out = String::new();
    let mut j: usize = i + 1;
    proof {
        assert(s@.subrange(i + 1, i + 1) =~= Seq::<char>::empty());
        assert(json_escaped(out@) =~= Seq::<char>::empty());
    }
    while j < n
        invariant
            n == s@.len(),
            i + 1 <= j <= n,
            s@[i as int] == '"',
            s@.subrange(i + 1, j as int) == json_escaped(out@),
        decreases n - j,
    {
        let ghost out_pre = out@;
        let c = s.get_char(j);
        if c == '"' {
            proof {
                assert(s@.subrange(i as int, j + 1) =~= seq![s@[i as int]] + s@.subrange(
                    i + 1,
                    j as int,
                ) + seq![s@[j as int]]);
            }
            return Some((out, j + 1));
        } else if c == '\\' {
            if n - j < 2 {
                return None;
            }
            let x = s.get_char(j + 1);
            if x == 'u' {
                if n - j < 6 {
                    return None;
                }
                if s.get_char(j + 2) != '0' || s.get_char(j + 3) != '0' {
                    return None;
                }
                let h1 = s.get_char(j + 4);
                let h2 = s.get_char(j + 5);
                let v1 = match hex_val(h1) {
                    Some(v) => v,
                    None => {
                        return None;
                    },
                };
                let v2 = match hex_val(h2) {
                    Some(v) => v,
                    None => {
                        return None;
                    },
                };
                let val = v1 * 16 + v2;
                if val >= 32 || val == 9 || val == 10 || val == 13 {
                    return None;
                }
                let piece = control_str(val);
                out.append(piece);
                proof {
                    let e = piece@[0];
                    assert(out@ =~= out_pre.push(e));
                    lemma_json_escaped_push(out_pre, e);
                    assert(escape_char(e) =~= seq!['\\', 'u', '0', '0', hex_digit(v1 as int),
                        hex_digit(v2 as int)]);
                    assert(seq![s@[j as int], s@[j + 1], s@[j + 2], s@[j + 3], s@[j + 4], s@[j
                        + 5]] =~= escape_char(e));
                    assert(s@.subrange(i + 1, j + 6) =~= s@.subrange(i + 1, j as int) + seq![s@[
                        j as int], s@[j + 1], s@[j + 2], s@[j + 3], s@[j + 4], s@[j + 5]]);
                    assert(s@.subrange(i + 1, j + 6) =~= json_escaped(out@));
                }
                j += 6;
            } else {
                let e: char;
                if x == '"' {
                    out.append("\"");
                    e = '"';
                } else if x == '\\' {
                    out.append("\\");
                    e = '\\';
                } else if x == 'n' {
                    out.append("\n");
                    e = '\n';
                } else if x == 'r' {
                    out.append("\r");
                    e = '\r';
                } else if x == 't' {
                    out.append("\t");
                    e = '\t';
                } else {
                    return None;
                }
                proof {
                    reveal_strlit("\"");
                    reveal_strlit("\\");
                    reveal_strlit("\n");
                    reveal_strlit("\r");
                    reveal_strlit("\t");
                    assert(out@ =~= out_pre.push(e));
                    lemma_json_escaped_push(out_pre, e);
                    assert(escape_char(e) =~= seq![s@[j as int], s@[j + 1]]);
                    assert(s@.subrange(i + 1, j + 2) =~= s@.subrange(i + 1, j as int) + seq![s@[
                        j as int], s@[j + 1]]);
                    assert(s@.subrange(i + 1, j + 2) =~= json_escaped(out@));
                }
                j += 2;
            }
        } else if (c as u32) < 32 {
            return None;  // a raw control character is never canonical
        } else {
            let piece = s.substring_char(j, j + 1);
            out.append(piece);
            proof {
                assert(piece@ =~= seq![c]);
                assert(out@ =~= out_pre.push(c));
                lemma_json_escaped_push(out_pre, c);
                assert(escape_char(c) =~= seq![c]);
                assert(s@.subrange(i + 1, j + 1) =~= s@.subrange(i + 1, j as int) + seq![c]);
            }
            j += 1;
        }
    }
    None
}

/// Parses a decimal number without leading zeros starting at `i`;
/// returns the value and the position after its digits. What was
/// consumed is exactly the canonical rendering of the value.
fn parse_u64_dec(s: &str, i: usize) -> (r: Option<(u64, usize)>)
    requires
        i <= s@.len(),
    ensures
        r matches Some(p) ==> i < p.1 <= s@.len() && s@.subrange(i as int, p.1 as int) == dec_of(
            p.0 as int,
        ),
{
    let n = s.unicode_len();
    let mut j: usize = i;
    let mut acc: u64 = 0;
    let mut digits: usize = 0;
    while j < n
        invariant
            n == s@.len(),
            i <= j <= n,
            digits == j - i,
            forall|t: int| i <= t < j ==> is_dec_digit(#[trigger] s@[t]),
            acc as int == num_of(s@.subrange(i as int, j as int)),
            digits >= 1 && digit_val(s@[i as int]) == 0 ==> digits == 1 && acc == 0,
        decreases n - j,
    {
        let c = s.get_char(j);
        let u = c as u32;
        if '0' as u32 <= u && u <= '9' as u32 {
            if digits >= 1 && acc == 0 {
                return None;  // a leading zero is not canonical
            }
            let d = (u - '0' as u32) as u64;
            if acc > (u64::MAX - d) / 10 {
                return None;  // would not fit
            }
            proof {
                let pre = s@.subrange(i as int, j as int);
                assert(s@.subrange(i as int, j + 1) =~= pre.push(s@[j as int]));
                assert(pre.push(s@[j as int]).drop_last() =~= pre);
                assert(acc * 10 <= u64::MAX - d);
            }
            acc = acc * 10 + d;
            digits += 1;
            j += 1;
        } else {
            break ;
        }
    }
    if digits == 0 {
        None
    } else {
        proof {
            lemma_canonical_digits(s@.subrange(i as int, j as int));
        }
        Some((acc, j))
    }
}

/// Parses the result field starting at `i`; what was consumed is
/// exactly the canonical wire form of the returned result, whose
/// solution digest is well formed.
fn parse_result_field(s: &str, i: usize) -> (r: Option<(JobResult, usize)>)
    requires
        i <= s@.len(),
    ensures
        r matches Some(p) ==> i <= p.1 <= s@.len() && s@.subrange(i as int, p.1 as int)
            == json_of_result(p.0) && (p.0 matches JobResult::Valid { sdigest: sd, .. }
            ==> sd.wf()),
{
    if let Some(q) = expect_lit(s, i, "\"Infeasible\"") {
        proof {
            assert(s@.subrange(i as int, q as int) =~= json_of_result(JobResult::Infeasible));
        }
        return Some((JobResult::Infeasible, q));
    }
    if let Some(q) = expect_lit(s, i, "\"Timeout\"") {
        proof {
            assert(s@.subrange(i as int, q as int) =~= json_of_result(JobResult::Timeout));
        }
        return Some((JobResult::Timeout, q));
    }
    let q1 = match expect_lit(s, i, "{\"Valid\":{\"score\":") {
        Some(p) => p,
        None => {
            return None;
        },
    };
    let (score64, q2) = match parse_u64_dec(s, q1) {
        Some(p) => p,
        None => {
            return None;
        },
    };
    if score64 > u32::MAX as u64 {
        return None;
    }
    let q3 = match expect_lit(s, q2, ",\"solution\":") {
        Some(p) => p,
        None => {
            return None;
        },
    };
    let (solution, q4) = match parse_quoted(s, q3) {
        Some(p) => p,
        None => {
            return None;
        },
    };
    let q5 = match expect_lit(s, q4, ",\"sdigest\":") {
        Some(p) => p,
        None => {
            return None;
        },
    };
    let (stext, q6) = match parse_quoted(s, q5) {
        Some(p) => p,
        None => {
            return None;
        },
    };
    let sdigest = match crate::digest::Digest::parse(stext.as_str()) {
        Ok(dg) => dg,
        Err(_) => {
            return None;
        },
    };
    let q7 = match expect_lit(s, q6, "}}") {
        Some(p) => p,
        None => {
            return None;
        },
    };
    let res = JobResult::Valid { score: score64 as u32, solution, sdigest };
    proof {
        reveal_strlit(",\"solution\":");
        reveal_strlit(",\"solution\":\"");
        reveal_strlit(",\"sdigest\":");
        reveal_strlit("\",\"sdigest\":\"");
        reveal_strlit("}}");
        reveal_strlit("\"}}");
        assert(",\"solution\":\""@ =~= ",\"solution\":"@ + seq!['"']);
        assert("\",\"sdigest\":\""@ =~= seq!['"'] + ",\"sdigest\":"@ + seq!['"']);
        assert("\"}}"@ =~= seq!['"'] + "}}"@);
        assert(score64 as int == (score64 as u32) as int);
        assert(s@.subrange(i as int, q2 as int) =~= s@.subrange(i as int, q1 as int) + s@.subrange(
            q1 as int,
            q2 as int,
        ));
        assert(s@.subrange(i as int, q3 as int) =~= s@.subrange(i as int, q2 as int) + s@.subrange(
            q2 as int,
            q3 as int,
        ));
        assert(s@.subrange(i as int, q4 as int) =~= s@.subrange(i as int, q3 as int) + s@.subrange(
            q3 as int,
            q4 as int,
        ));
        assert(s@.subrange(i as int, q5 as int) =~= s@.subrange(i as int, q4 as int) + s@.subrange(
            q4 as int,
            q5 as int,
        ));
        assert(s@.subrange(i as int, q6 as int) =~= s@.subrange(i as int, q5 as int) + s@.subrange(
            q5 as int,
            q6 as int,
        ));
        assert(s@.subrange(i as int, q7 as int) =~= s@.subrange(i as int, q6 as int) + s@.subrange(
            q6 as int,
            q7 as int,
        ));
        assert(sdigest@ == stext@);
        assert(s@.subrange(i as int, q7 as int) =~= json_of_result(res));
    }
    Some((res, q7))
}

/// Parses the runtime field starting at `i`; what was consumed is
/// exactly the canonical wire form of the returned optional runtime.
fn parse_runtime_field(s: &str, i: usize) -> (r: Option<(Option<Runtime>, usize)>)
    requires
        i <= s@.len(),
    ensures
        r matches Some(p) ==> i <= p.1 <= s@.len() && s@.subrange(i as int, p.1 as int)
            == json_of_runtime(p.0),
{
    if let Some(q) = expect_lit(s, i, "null") {
        proof {
            assert(s@.subrange(i as int, q as int) =~= json_of_runtime(Option::<Runtime>::None));
        }
        return Some((None, q));
    }
    let q1 = match expect_lit(s, i, "{\"secs\":") {
        Some(p) => p,
        None => {
            return None;
        },
    };
    let (secs, q2) = match parse_u64_dec(s, q1) {
        Some(p) => p,
        None => {
            return None;
        },
    };
    let q3 = match expect_lit(s, q2, ",\"nanos\":") {
        Some(p) => p,
        None => {
            return None;
        },
    };
    let (nanos64, q4) = match parse_u64_dec(s, q3) {
        Some(p) => p,
        None => {
            return None;
        },
    };
    if nanos64 > u32::MAX as u64 {
        return None;
    }
    let q5 = match expect_lit(s, q4, "}") {
        Some(p) => p,
        None => {
            return None;
        },
    };
    let rt = Runtime { secs, nanos: nanos64 as u32 };
    proof {
        assert(nanos64 as int == (nanos64 as u32) as int);
        assert(s@.subrange(i as int, q2 as int) =~= s@.subrange(i as int, q1 as int) + s@.subrange(
            q1 as int,
            q2 as int,
        ));
        assert(s@.subrange(i as int, q3 as int) =~= s@.subrange(i as int, q2 as int) + s@.subrange(
            q2 as int,
            q3 as int,
        ));
        assert(s@.subrange(i as int, q4 as int) =~= s@.subrange(i as int, q3 as int) + s@.subrange(
            q3 as int,
            q4 as int,
        ));
        assert(s@.subrange(i as int, q5 as int) =~= s@.subrange(i as int, q4 as int) + s@.subrange(
            q4 as int,
            q5 as int,
        ));
        assert(s@.subrange(i as int, q5 as int) =~= json_of_runtime(Some(rt)));
    }
    Some((Some(rt), q5))
}

/// Decodes one record from its canonical wire form; anything else is
/// rejected. Whenever a record comes back, the input was exactly that
/// record's canonical wire form and its digests are well formed, so
/// decoding inverts `encode_record`.
pub fn decode_record(s: &str) -> (r: Option<JobDescription>)
    ensures
        r matches Some(d) ==> s@ == json_of(d) && d.idigest.wf() && (d.result matches
            JobResult::Valid { sdigest: sd, .. } ==> sd.wf()),
{
    let n = s.unicode_len();
    let p1 = match expect_lit(s, 0, "{\"idigest\":") {
        Some(p) => p,
        None => {
            return None;
        },
    };
    let (itext, p2) = match parse_quoted(s, p1) {
        Some(p) => p,
        None => {
            return None;
        },
    };
    let idigest = match crate::digest::Digest::parse(itext.as_str()) {
        Ok(dg) => dg,
        Err(_) => {
            return None;
        },
    };
    let p3 = match expect_lit(s, p2, ",\"result\":") {
        Some(p) => p,
        None => {
            return None;
        },
    };
    let (result, p4) = match parse_result_field(s, p3) {
        Some(p) => p,
        None => {
            return None;
        },
    };
    let p5 = match expect_lit(s, p4, ",\"runtime\":") {
        Some(p) => p,
        None => {
            return None;
        },
    };
    let (runtime, p6) = match parse_runtime_field(s, p5) {
        Some(p) => p,
        None => {
            return None;
        },
    };
    let p7 = match expect_lit(s, p6, "}") {
        Some(p) => p,
        None => {
            return None;
        },
    };
    if p7 != n {
        return None;
    }
    let rec = JobDescription { idigest, result, runtime };
    proof {
        reveal_strlit("{\"idigest\":");
        reveal_strlit("{\"idigest\":\"");
        reveal_strlit(",\"result\":");
        reveal_strlit("\",\"result\":");
        assert("{\"idigest\":\""@ =~= "{\"idigest\":"@ + seq!['"']);
        assert("\",\"result\":"@ =~= seq!['"'] + ",\"result\":"@);
        assert(idigest@ == itext@);
        assert(s@.subrange(0, p2 as int) =~= s@.subrange(0, p1 as int) + s@.subrange(
            p1 as int,
            p2 as int,
        ));
        assert(s@.subrange(0, p3 as int) =~= s@.subrange(0, p2 as int) + s@.subrange(
            p2 as int,
            p3 as int,
        ));
        assert(s@.subrange(0, p4 as int) =~= s@.subrange(0, p3 as int) + s@.subrange(
            p3 as int,
            p4 as int,
        ));
        assert(s@.subrange(0, p5 as int) =~= s@.subrange(0, p4 as int) + s@.subrange(
            p4 as int,
            p5 as int,
        ));
        assert(s@.subrange(0, p6 as int) =~= s@.subrange(0, p5 as int) + s@.subrange(
            p5 as int,
            p6 as int,
        ));
        assert(s@.subrange(0, p7 as int) =~= s@.subrange(0, p6 as int) + s@.subrange(
            p6 as int,
            p7 as int,
        ));
        assert(s@ =~= s@.subrange(0, p7 as int));
        assert(s@ =~= json_of(rec));
    }
    Some(rec)
}

/// Appending one more record appends one comma and that record's form.
pub proof fn lemma_json_of_jobs_push(s: Seq<JobDescription>, d: JobDescription)
    requires
        s.len() >= 1,
    ensures
        json_of_jobs(s.push(d)) == json_of_jobs(s) + ","@ + json_of(d),
    decreases s.len(),
{
    if s.len() == 1 {
        assert(s.push(d)[0] == s[0]);
        assert(s.push(d).drop_first() =~= seq![d]);
        assert(json_of_jobs(seq![d]) == json_of(seq![d][0]));
    } else {
        assert(s.push(d)[0] == s[0]);
        assert(s.push(d).drop_first() =~= s.drop_first().push(d));
        lemma_json_of_jobs_push(s.drop_first(), d);
        assert(json_of(s[0]) + ","@ + (json_of_jobs(s.drop_first()) + ","@ + json_of(d)) =~= (
        json_of(s[0]) + ","@ + json_of_jobs(s.drop_first())) + ","@ + json_of(d));
    }
}

} // verus!
