use vstd::prelude::*;
use vstd::slice::{slice_subrange, slice_to_vec};
use vstd::string::StringSliceAdditionalSpecFns;

verus! {

/// The G-code operations that the cutter knows about.
#[derive(PartialEq, Eq, Structural, Debug, Clone, Copy)]
pub enum GCodeOp {
    G0,
    G1,
    G21,
    G90,
    M4,
    M5,
    UNKNOWN,
}

/// The name of an operation as it is printed.
pub open spec fn op_name(op: GCodeOp) -> Seq<char> {
    match op {
        GCodeOp::G0 => seq!['G', '0'],
        GCodeOp::G1 => seq!['G', '1'],
        GCodeOp::G21 => seq!['G', '2', '1'],
        GCodeOp::G90 => seq!['G', '9', '0'],
        GCodeOp::M4 => seq!['M', '4'],
        GCodeOp::M5 => seq!['M', '5'],
        GCodeOp::UNKNOWN => seq!['U', 'N', 'K', 'N', 'O', 'W', 'N'],
    }
}

/// The text with which a line starts that carries `op`: its name and a space.
pub open spec fn op_label(op: GCodeOp) -> Seq<char> {
    op_name(op) + seq![' ']
}

impl GCodeOp {
    /// The text that opens a printed line with this operation.
    pub fn label(&self) -> (s: &'static str)
        ensures
            s@ == op_label(*self),
    {
        match self {
            GCodeOp::G0 => {
                proof { reveal_strlit("G0 "); assert(op_label(*self) =~= "G0 "@); }
                "G0 "
            },
            GCodeOp::G1 => {
                proof { reveal_strlit("G1 "); assert(op_label(*self) =~= "G1 "@); }
                "G1 "
            },
            GCodeOp::G21 => {
                proof { reveal_strlit("G21 "); assert(op_label(*self) =~= "G21 "@); }
                "G21 "
            },
            GCodeOp::G90 => {
                proof { reveal_strlit("G90 "); assert(op_label(*self) =~= "G90 "@); }
                "G90 "
            },
            GCodeOp::M4 => {
                proof { reveal_strlit("M4 "); assert(op_label(*self) =~= "M4 "@); }
                "M4 "
            },
            GCodeOp::M5 => {
                proof { reveal_strlit("M5 "); assert(op_label(*self) =~= "M5 "@); }
                "M5 "
            },
            GCodeOp::UNKNOWN => {
                proof { reveal_strlit("UNKNOWN "); assert(op_label(*self) =~= "UNKNOWN "@); }
                "UNKNOWN "
            },
        }
    }
}


/// Recognises the operation named by a code token (`G..`/`M..`).
/// Only a rapid move is recognised; every other code reads as no operation.
pub open spec fn spec_parse_op(token: Seq<u8>) -> Option<GCodeOp> {
    if token == seq![('G' as u8), ('0' as u8)] || token == seq![('g' as u8), ('0' as u8)] {
        Some(GCodeOp::G0)
    } else {
        None
    }
}

/// The operation that a code token names, if any.
pub fn parse_op(token: &[u8]) -> (r: Option<GCodeOp>)
    ensures
        r == spec_parse_op(token@),
{
    if token.len() == 2 && (token[0] == ('G' as u8) || token[0] == ('g' as u8)) && token[1] == ('0' as u8) {
        proof {
            if token[0] == ('G' as u8) {
                assert(token@ =~= seq![('G' as u8), ('0' as u8)]);
            } else {
                assert(token@ =~= seq![('g' as u8), ('0' as u8)]);
            }
        }
        Some(GCodeOp::G0)
    } else {
        None
    }
}

/// The bytes on which `str::split_ascii_whitespace` splits a line.
pub open spec fn is_ascii_ws(b: u8) -> bool {
    b == 0x20u8 || b == 0x09u8 || b == 0x0Au8 || b == 0x0Cu8 || b == 0x0Du8
}

/// The length of the run of non-whitespace bytes at the start of `s`.
pub open spec fn word_len(s: Seq<u8>) -> nat
    decreases s.len(),
{
    if s.len() == 0 || is_ascii_ws(s[0]) {
        0
    } else {
        1 + word_len(s.drop_first())
    }
}

pub proof fn lemma_word_len_bound(s: Seq<u8>)
    ensures
        word_len(s) <= s.len(),
        s.len() > 0 && !is_ascii_ws(s[0]) ==> word_len(s) >= 1,
    decreases s.len(),
{
    if s.len() > 0 && !is_ascii_ws(s[0]) {
        lemma_word_len_bound(s.drop_first());
    }
}

/// The words of `s`, split at ASCII whitespace, empty words left out.
pub open spec fn tokens(s: Seq<u8>) -> Seq<Seq<u8>>
    decreases s.len(),
{
    if s.len() == 0 {
        Seq::empty()
    } else if is_ascii_ws(s[0]) {
        tokens(s.drop_first())
    } else {
        proof {
            lemma_word_len_bound(s);
        }
        seq![s.take(word_len(s) as int)] + tokens(s.skip(word_len(s) as int))
    }
}

/// The numeric fields that a G-code line can carry.
#[derive(PartialEq, Eq, Structural, Debug, Clone, Copy)]
pub enum Field {
    X,
    Y,
    S,
    F,
}

/// The field that a word starting with `b` sets, if any.
pub open spec fn field_of(b: u8) -> Option<Field> {
    if b == ('X' as u8) || b == ('x' as u8) {
        Some(Field::X)
    } else if b == ('Y' as u8) || b == ('y' as u8) {
        Some(Field::Y)
    } else if b == ('S' as u8) || b == ('s' as u8) {
        Some(Field::S)
    } else if b == ('F' as u8) || b == ('f' as u8) {
        Some(Field::F)
    } else {
        None
    }
}

/// A word starting with `b` names the line's operation.
pub open spec fn is_code_letter(b: u8) -> bool {
    b == ('G' as u8) || b == ('g' as u8) || b == ('M' as u8) || b == ('m' as u8)
}

/// A word starting with `b` opens the comment: no word after it is read.
pub open spec fn is_comment_start(b: u8) -> bool {
    b == (';' as u8)
}

/// The last code word before the comment, if any.
pub open spec fn scan_code(toks: Seq<Seq<u8>>) -> Option<Seq<u8>>
    decreases toks.len(),
{
    if toks.len() == 0 || is_comment_start(toks[0][0]) {
        None
    } else {
        match scan_code(toks.drop_first()) {
            Some(c) => Some(c),
            None => if is_code_letter(toks[0][0]) {
                Some(toks[0])
            } else {
                None
            },
        }
    }
}

/// The field words before the comment, in order, each with the text after its letter.
pub open spec fn scan_numbers(toks: Seq<Seq<u8>>) -> Seq<(Field, Seq<u8>)>
    decreases toks.len(),
{
    if toks.len() == 0 || is_comment_start(toks[0][0]) {
        Seq::empty()
    } else {
        let head: Seq<(Field, Seq<u8>)> = match field_of(toks[0][0]) {
            Some(f) => seq![(f, toks[0].drop_first())],
            None => Seq::empty(),
        };
        head + scan_numbers(toks.drop_first())
    }
}

/// A field word of a line: which field, and the text of its number.
pub struct NumberToken {
    pub field: Field,
    pub text: Vec<u8>,
}

/// What a G-code line says, before its numbers are read as numbers.
pub struct ScannedLine {
    /// The last code word (`G..`, `M..`) before the comment.
    pub code: Option<Vec<u8>>,
    /// The field words before the comment, in the order of the line.
    pub numbers: Vec<NumberToken>,
}

impl View for ScannedLine {
    type V = (Option<Seq<u8>>, Seq<(Field, Seq<u8>)>);

    open spec fn view(&self) -> (Option<Seq<u8>>, Seq<(Field, Seq<u8>)>) {
        (
            match self.code {
                Some(c) => Some(c@),
                None => None,
            },
            self.numbers@.map_values(|t: NumberToken| (t.field, t.text@)),
        )
    }
}

fn is_ascii_ws_byte(b: u8) -> (r: bool)
    ensures
        r == is_ascii_ws(b),
{
    b == 0x20u8 || b == 0x09u8 || b == 0x0Au8 || b == 0x0Cu8 || b == 0x0Du8
}

fn field_of_byte(b: u8) -> (r: Option<Field>)
    ensures
        r == field_of(b),
{
    if b == ('X' as u8) || b == ('x' as u8) {
        Some(Field::X)
    } else if b == ('Y' as u8) || b == ('y' as u8) {
        Some(Field::Y)
    } else if b == ('S' as u8) || b == ('s' as u8) {
        Some(Field::S)
    } else if b == ('F' as u8) || b == ('f' as u8) {
        Some(Field::F)
    } else {
        None
    }
}

pub(crate) proof fn lemma_word_len_run(s: Seq<u8>, k: int)
    requires
        0 <= k <= s.len(),
        forall|m: int| 0 <= m < k ==> !is_ascii_ws(#[trigger] s[m]),
        k == s.len() || is_ascii_ws(s[k]),
    ensures
        word_len(s) == k,
    decreases k,
{
    if k > 0 {
        let t = s.drop_first();
        assert forall|m: int| 0 <= m < k - 1 implies !is_ascii_ws(#[trigger] t[m]) by {
            assert(t[m] == s[m + 1]);
        }
        if k < s.len() {
            assert(t[k - 1] == s[k]);
        }
        lemma_word_len_run(t, k - 1);
    }
}

pub(crate) proof fn lemma_scan_cons(t: Seq<u8>, rest: Seq<Seq<u8>>)
    requires
        t.len() > 0,
    ensures
        scan_code(seq![t] + rest) == (if is_comment_start(t[0]) {
            None
        } else {
            match scan_code(rest) {
                Some(c) => Some(c),
                None => if is_code_letter(t[0]) {
                    Some(t)
                } else {
                    None
                },
            }
        }),
        scan_numbers(seq![t] + rest) == (if is_comment_start(t[0]) {
            Seq::empty()
        } else {
            (match field_of(t[0]) {
                Some(f) => seq![(f, t.drop_first())],
                None => Seq::<(Field, Seq<u8>)>::empty(),
            }) + scan_numbers(rest)
        }),
{
    let all = seq![t] + rest;
    assert(all[0] == t);
    assert(all.drop_first() =~= rest);
}

/// Reads a G-code line: splits it into its words at ASCII whitespace; the
/// last `G`/`M` word is the code, `X`/`Y`/`S`/`F` words (either case) carry
/// numbers, a word starting with `;` ends what is read, other words are
/// ignored. The numbers are left as text, for the caller to read as numbers.
pub fn scan_line(line: &str) -> (r: ScannedLine)
    ensures
        r@.0 == scan_code(tokens(line.spec_bytes())),
        r@.1 == scan_numbers(tokens(line.spec_bytes())),
{
    let bytes = line.as_bytes();
    let n = bytes.len();
    let ghost s = bytes@;
    let mut code: Option<Vec<u8>> = None;
    let mut numbers: Vec<NumberToken> = Vec::new();
    let mut i: usize = 0;
    let mut done = false;
    proof {
        assert(s.skip(0) =~= s);
    }
    while i < n && !done
        invariant
            s == bytes@,
            s == line.spec_bytes(),
            n == s.len(),
            i <= n,
            scan_numbers(tokens(s)) == numbers@.map_values(|t: NumberToken| (t.field, t.text@)) + (
            if done {
                Seq::empty()
            } else {
                scan_numbers(tokens(s.skip(i as int)))
            }),
            scan_code(tokens(s)) == (match (if done {
                None
            } else {
                scan_code(tokens(s.skip(i as int)))
            }) {
                Some(c) => Some(c),
                None => match code {
                    Some(c) => Some(c@),
                    None => None,
                },
            }),
        decreases n - i,
    {
        let ghost rest = s.skip(i as int);
        if is_ascii_ws_byte(bytes[i]) {
            proof {
                assert(rest[0] == s[i as int]);
                assert(rest.drop_first() =~= s.skip(i + 1));
            }
            i = i + 1;
        } else {
            let mut j: usize = i + 1;
            while j < n && !is_ascii_ws_byte(bytes[j])
                invariant
                    s == bytes@,
                    n == s.len(),
                    i < j <= n,
                    forall|m: int| i <= m < j ==> !is_ascii_ws(#[trigger] s[m]),
                decreases n - j,
            {
                j = j + 1;
            }
            let ghost tok = s.subrange(i as int, j as int);
            proof {
                assert forall|m: int| 0 <= m < j - i implies !is_ascii_ws(#[trigger] rest[m]) by {
                    assert(rest[m] == s[i + m]);
                }
                if j < n {
                    assert(rest[j - i] == s[j as int]);
                }
                lemma_word_len_run(rest, j - i);
                assert(rest[0] == s[i as int]);
                assert(rest.take(j - i) =~= tok);
                assert(rest.skip(j - i) =~= s.skip(j as int));
                assert(tokens(rest) == seq![tok] + tokens(s.skip(j as int)));
                lemma_scan_cons(tok, tokens(s.skip(j as int)));
                assert(tok[0] == s[i as int]);
            }
            let first = bytes[i];
            let ghost old_numbers = numbers@;
            if first == (';' as u8) {
                done = true;
            } else if first == ('G' as u8) || first == ('g' as u8) || first == ('M' as u8) || first == ('m' as u8) {
                let word = slice_to_vec(slice_subrange(bytes, i, j));
                code = Some(word);
            } else {
                match field_of_byte(first) {
                    Some(f) => {
                        let text = slice_to_vec(slice_subrange(bytes, i + 1, j));
                        proof {
                            assert(text@ =~= tok.drop_first());
                        }
                        numbers.push(NumberToken { field: f, text });
                        proof {
                            assert(numbers@.map_values(|t: NumberToken| (t.field, t.text@)) =~=
                                old_numbers.map_values(|t: NumberToken| (t.field, t.text@)) + seq![(f, tok.drop_first())]);
                        }
                    },
                    None => {},
                }
            }
            i = j;
        }
    }
    proof {
        if !done {
            assert(s.skip(i as int) =~= Seq::<u8>::empty());
            assert(tokens(s.skip(i as int)) =~= Seq::<Seq<u8>>::empty());
        }
        assert(numbers@.map_values(|t: NumberToken| (t.field, t.text@)) + Seq::<(Field, Seq<u8>)>::empty()
            =~= numbers@.map_values(|t: NumberToken| (t.field, t.text@)));
    }
    ScannedLine { code, numbers }
}


/// The printed text of an optional value, as characters.
pub open spec fn opt_text(o: Option<&str>) -> Option<Seq<char>> {
    match o {
        Some(t) => Some(t@),
        None => None,
    }
}

/// The printed text of an optional coordinate pair, as characters.
pub open spec fn opt_pair_text(o: Option<(&str, &str)>) -> Option<(Seq<char>, Seq<char>)> {
    match o {
        Some((x, y)) => Some((x@, y@)),
        None => None,
    }
}

/// `letter`, the word, and a space.
pub open spec fn field_text(letter: char, word: Seq<char>) -> Seq<char> {
    seq![letter] + word + seq![' ']
}

/// The opening of a printed line: the operation's label, if there is one.
pub open spec fn code_text(code: Option<GCodeOp>) -> Seq<char> {
    match code {
        Some(op) => op_label(op),
        None => Seq::empty(),
    }
}

/// The printed coordinate: `X.. Y.. `, if there is one.
pub open spec fn coord_text(coord: Option<(Seq<char>, Seq<char>)>) -> Seq<char> {
    match coord {
        Some((x, y)) => field_text('X', x) + field_text('Y', y),
        None => Seq::empty(),
    }
}

/// A printed optional field.
pub open spec fn opt_field_text(letter: char, value: Option<Seq<char>>) -> Seq<char> {
    match value {
        Some(w) => field_text(letter, w),
        None => Seq::empty(),
    }
}

/// The comment text, empty where there is none.
pub open spec fn comment_text(comment: Option<Seq<char>>) -> Seq<char> {
    match comment {
        Some(c) => c,
        None => Seq::empty(),
    }
}

/// A G-code line as it is printed: the operation, then
/// `X.. Y.. `, `S.. `, `F.. ` for the fields that are set, then `; ` and the
/// comment. Each number is given as the text it prints as.
pub open spec fn line_text(
    code: Option<GCodeOp>,
    coord: Option<(Seq<char>, Seq<char>)>,
    power: Option<Seq<char>>,
    feedrate: Option<Seq<char>>,
    comment: Option<Seq<char>>,
) -> Seq<char> {
    code_text(code) + coord_text(coord) + opt_field_text('S', power) + opt_field_text('F', feedrate)
        + seq![';', ' '] + comment_text(comment)
}

fn append_field(out: &mut String, letter: &str, word: &str)
    requires
        letter@.len() == 1,
    ensures
        final(out)@ == old(out)@ + field_text(letter@[0], word@),
{
    out.append(letter);
    out.append(word);
    out.append(" ");
    proof {
        reveal_strlit(" ");
        assert(seq![letter@[0]] =~= letter@);
        assert(final(out)@ =~= old(out)@ + field_text(letter@[0], word@));
    }
}

/// Prints a G-code line, given the printed text of each of its numbers.
pub fn format_line(
    code: Option<GCodeOp>,
    coord: Option<(&str, &str)>,
    power: Option<&str>,
    feedrate: Option<&str>,
    comment: Option<&str>,
) -> (r: String)
    ensures
        r@ == line_text(code, opt_pair_text(coord), opt_text(power), opt_text(feedrate), opt_text(comment)),
{
    proof {
        reveal_strlit("X");
        reveal_strlit("Y");
        reveal_strlit("S");
        reveal_strlit("F");
        reveal_strlit("; ");
    }
    let mut out = String::new();
    match code {
        Some(op) => out.append(op.label()),
        None => {},
    }
    let ghost after_code = out@;
    match coord {
        Some((x, y)) => {
            append_field(&mut out, "X", x);
            append_field(&mut out, "Y", y);
        },
        None => {},
    }
    let ghost after_coord = out@;
    match power {
        Some(p) => append_field(&mut out, "S", p),
        None => {},
    }
    let ghost after_power = out@;
    match feedrate {
        Some(f) => append_field(&mut out, "F", f),
        None => {},
    }
    let ghost after_feed = out@;
    out.append("; ");
    match comment {
        Some(c) => out.append(c),
        None => {},
    }
    proof {
        assert(after_code =~= code_text(code));
        assert(after_coord =~= after_code + coord_text(opt_pair_text(coord)));
        assert(after_power =~= after_coord + opt_field_text('S', opt_text(power)));
        assert(after_feed =~= after_power + opt_field_text('F', opt_text(feedrate)));
    }
    assert(out@ =~= line_text(code, opt_pair_text(coord), opt_text(power), opt_text(feedrate), opt_text(comment)));
    out
}

/// The operation whose printed name is `s`, read back letter by letter.
spec fn op_of_name(s: Seq<char>) -> Option<GCodeOp> {
    if s.len() == 2 && s[0] == 'G' && s[1] == '0' {
        Some(GCodeOp::G0)
    } else if s.len() == 2 && s[0] == 'G' && s[1] == '1' {
        Some(GCodeOp::G1)
    } else if s.len() == 3 && s[0] == 'G' && s[1] == '2' && s[2] == '1' {
        Some(GCodeOp::G21)
    } else if s.len() == 3 && s[0] == 'G' && s[1] == '9' && s[2] == '0' {
        Some(GCodeOp::G90)
    } else if s.len() == 2 && s[0] == 'M' && s[1] == '4' {
        Some(GCodeOp::M4)
    } else if s.len() == 2 && s[0] == 'M' && s[1] == '5' {
        Some(GCodeOp::M5)
    } else if s.len() == 7 && s[0] == 'U' {
        Some(GCodeOp::UNKNOWN)
    } else {
        None
    }
}

/// Each operation is printed under its own G-code name, followed by one
/// space: `G0` rapid move, `G1` cutting move, `G21` millimetres, `G90`
/// absolute positioning, `M4` laser on, `M5` laser off. No two operations
/// share a name, so a printed label says which operation it was.
pub proof fn lemma_op_labels()
    ensures
        op_label(GCodeOp::G0) == "G0 "@,
        op_label(GCodeOp::G1) == "G1 "@,
        op_label(GCodeOp::G21) == "G21 "@,
        op_label(GCodeOp::G90) == "G90 "@,
        op_label(GCodeOp::M4) == "M4 "@,
        op_label(GCodeOp::M5) == "M5 "@,
        op_label(GCodeOp::UNKNOWN) == "UNKNOWN "@,
        forall|a: GCodeOp, b: GCodeOp| #[trigger] op_name(a) == #[trigger] op_name(b) ==> a == b,
        forall|a: GCodeOp, b: GCodeOp| #[trigger] op_label(a) == #[trigger] op_label(b) ==> a == b,
{
    reveal_strlit("G0 ");
    reveal_strlit("G1 ");
    reveal_strlit("G21 ");
    reveal_strlit("G90 ");
    reveal_strlit("M4 ");
    reveal_strlit("M5 ");
    reveal_strlit("UNKNOWN ");
    assert(op_label(GCodeOp::G0) =~= "G0 "@);
    assert(op_label(GCodeOp::G1) =~= "G1 "@);
    assert(op_label(GCodeOp::G21) =~= "G21 "@);
    assert(op_label(GCodeOp::G90) =~= "G90 "@);
    assert(op_label(GCodeOp::M4) =~= "M4 "@);
    assert(op_label(GCodeOp::M5) =~= "M5 "@);
    assert(op_label(GCodeOp::UNKNOWN) =~= "UNKNOWN "@);
    assert forall|a: GCodeOp| op_of_name(#[trigger] op_name(a)) == Some(a) by {
        match a {
            GCodeOp::G0 => {},
            GCodeOp::G1 => {},
            GCodeOp::G21 => {},
            GCodeOp::G90 => {},
            GCodeOp::M4 => {},
            GCodeOp::M5 => {},
            GCodeOp::UNKNOWN => {},
        }
    }
    assert forall|a: GCodeOp, b: GCodeOp| #[trigger] op_label(a) == #[trigger] op_label(b) implies a == b by {
        assert(op_label(a).drop_last() =~= op_name(a));
        assert(op_label(b).drop_last() =~= op_name(b));
        assert(op_of_name(op_name(a)) == Some(a));
        assert(op_of_name(op_name(b)) == Some(b));
    }
}

/// The code of a line is its last `G`/`M` word (either case) before the
/// comment: a word that starts with `G`, `g`, `M` or `m` and follows every
/// other word of a line without a comment is the code; any other word added
/// at the end of a line changes nothing; and a code is always such a word.
pub proof fn lemma_scan_code_letters(toks: Seq<Seq<u8>>, w: Seq<u8>)
    requires
        w.len() > 0,
        forall|i: int| 0 <= i < toks.len() ==> (#[trigger] toks[i]).len() > 0,
    ensures
        (forall|i: int| 0 <= i < toks.len() ==> (#[trigger] toks[i])[0] != (';' as u8)) && (w[0] == ('G' as u8) || w[0] == ('g' as u8) || w[0] == ('M' as u8) || w[0] == ('m' as u8))
            ==> scan_code(toks.push(w)) == Some(w),
        !(w[0] == ('G' as u8) || w[0] == ('g' as u8) || w[0] == ('M' as u8) || w[0] == ('m' as u8)) ==> scan_code(toks.push(w)) == scan_code(toks),
        scan_code(toks) matches Some(c) ==> c.len() > 0 && (c[0] == ('G' as u8) || c[0] == ('g' as u8) || c[0] == ('M' as u8) || c[0] == ('m' as u8)),
    decreases toks.len(),
{
    if toks.len() == 0 {
        let empty = Seq::<Seq<u8>>::empty();
        assert(toks.push(w) =~= seq![w] + empty);
        lemma_scan_cons(w, empty);
        assert(scan_code(empty) is None);
    } else {
        let rest = toks.drop_first();
        assert forall|i: int| 0 <= i < rest.len() implies (#[trigger] rest[i]).len() > 0 by {
            assert(rest[i] == toks[i + 1]);
        }
        lemma_scan_code_letters(rest, w);
        assert(toks.push(w) =~= seq![toks[0]] + rest.push(w));
        assert(toks =~= seq![toks[0]] + rest);
        assert(toks[0].len() > 0);
        lemma_scan_cons(toks[0], rest.push(w));
        lemma_scan_cons(toks[0], rest);
        if forall|i: int| 0 <= i < toks.len() ==> (#[trigger] toks[i])[0] != (';' as u8) {
            assert forall|i: int| 0 <= i < rest.len() implies (#[trigger] rest[i])[0] != (';' as u8) by {
                assert(rest[i] == toks[i + 1]);
            }
            assert(toks[0][0] != (';' as u8));
        }
    }
}

/// The numbers of a line are its `X`, `Y`, `S` and `F` words (either case)
/// before the comment, in order: such a word added at the end of a line
/// without a comment adds its field and the text after its letter; any other
/// word adds nothing.
pub proof fn lemma_scan_number_letters(toks: Seq<Seq<u8>>, w: Seq<u8>)
    requires
        w.len() > 0,
        forall|i: int| 0 <= i < toks.len() ==> (#[trigger] toks[i]).len() > 0,
        forall|i: int| 0 <= i < toks.len() ==> (#[trigger] toks[i])[0] != (';' as u8),
    ensures
        (w[0] == ('X' as u8) || w[0] == ('x' as u8)) ==> scan_numbers(toks.push(w)) == scan_numbers(toks).push((Field::X, w.drop_first())),
        (w[0] == ('Y' as u8) || w[0] == ('y' as u8)) ==> scan_numbers(toks.push(w)) == scan_numbers(toks).push((Field::Y, w.drop_first())),
        (w[0] == ('S' as u8) || w[0] == ('s' as u8)) ==> scan_numbers(toks.push(w)) == scan_numbers(toks).push((Field::S, w.drop_first())),
        (w[0] == ('F' as u8) || w[0] == ('f' as u8)) ==> scan_numbers(toks.push(w)) == scan_numbers(toks).push((Field::F, w.drop_first())),
        !(w[0] == ('X' as u8) || w[0] == ('x' as u8)) && !(w[0] == ('Y' as u8) || w[0] == ('y' as u8)) && !(w[0] == ('S' as u8) || w[0] == ('s' as u8)) && !(w[0] == ('F' as u8) || w[0] == ('f' as u8))
            ==> scan_numbers(toks.push(w)) == scan_numbers(toks),
    decreases toks.len(),
{
    if toks.len() == 0 {
        let empty = Seq::<Seq<u8>>::empty();
        assert(toks.push(w) =~= seq![w] + empty);
        lemma_scan_cons(w, empty);
        assert(scan_numbers(empty) =~= Seq::<(Field, Seq<u8>)>::empty());
        assert(scan_numbers(toks) =~= Seq::<(Field, Seq<u8>)>::empty());
        let e = Seq::<(Field, Seq<u8>)>::empty();
        assert(seq![(Field::X, w.drop_first())] + e =~= e.push((Field::X, w.drop_first())));
        assert(seq![(Field::Y, w.drop_first())] + e =~= e.push((Field::Y, w.drop_first())));
        assert(seq![(Field::S, w.drop_first())] + e =~= e.push((Field::S, w.drop_first())));
        assert(seq![(Field::F, w.drop_first())] + e =~= e.push((Field::F, w.drop_first())));
        assert(e + e =~= e);
    } else {
        let rest = toks.drop_first();
        assert forall|i: int| 0 <= i < rest.len() implies (#[trigger] rest[i]).len() > 0 && rest[i][0] != (';' as u8) by {
            assert(rest[i] == toks[i + 1]);
        }
        lemma_scan_number_letters(rest, w);
        assert(toks.push(w) =~= seq![toks[0]] + rest.push(w));
        assert(toks =~= seq![toks[0]] + rest);
        assert(toks[0].len() > 0);
        assert(toks[0][0] != (';' as u8));
        lemma_scan_cons(toks[0], rest.push(w));
        lemma_scan_cons(toks[0], rest);
        let head: Seq<(Field, Seq<u8>)> = match field_of(toks[0][0]) {
            Some(f) => seq![(f, toks[0].drop_first())],
            None => Seq::empty(),
        };
        let sr = scan_numbers(rest);
        assert(head + sr.push((Field::X, w.drop_first())) =~= (head + sr).push((Field::X, w.drop_first())));
        assert(head + sr.push((Field::Y, w.drop_first())) =~= (head + sr).push((Field::Y, w.drop_first())));
        assert(head + sr.push((Field::S, w.drop_first())) =~= (head + sr).push((Field::S, w.drop_first())));
        assert(head + sr.push((Field::F, w.drop_first())) =~= (head + sr).push((Field::F, w.drop_first())));
    }
}

} // verus!
