//! What reading a printed G-code line gives back.
use vstd::prelude::*;
use vstd::utf8::{encode_utf8, is_ascii_chars, is_ascii_chars_encode_utf8};

use crate::gcode::{
    code_text, comment_text, coord_text, field_text, is_ascii_ws, is_comment_start, lemma_scan_cons,
    line_text, op_label, op_name, opt_field_text, scan_code, is_code_letter, field_of,
    scan_numbers, spec_parse_op, tokens, word_len, Field, GCodeOp,
};

verus! {

/// A printed number as it may stand in a G-code line: not empty, ASCII,
/// and free of the whitespace that separates words.
pub open spec fn is_word(w: Seq<char>) -> bool {
    &&& w.len() > 0
    &&& is_ascii_chars(w)
    &&& forall|i: int| 0 <= i < w.len() ==> !is_ascii_ws(#[trigger] w[i] as u8)
}

/// The bytes of an ASCII text.
pub open spec fn ascii_bytes(w: Seq<char>) -> Seq<u8> {
    w.map_values(|c: char| c as u8)
}

/// The operation that a scanned code word names, `None` where there is none.
pub open spec fn parsed_op(code: Option<Seq<u8>>) -> Option<GCodeOp> {
    match code {
        Some(t) => spec_parse_op(t),
        None => None,
    }
}

/// The field words that printing `coord`, `power` and `feedrate` writes, as scanning reads them.
pub open spec fn printed_fields(
    coord: Option<(Seq<char>, Seq<char>)>,
    power: Option<Seq<char>>,
    feedrate: Option<Seq<char>>,
) -> Seq<(Field, Seq<u8>)> {
    (match coord {
        Some((x, y)) => seq![(Field::X, ascii_bytes(x)), (Field::Y, ascii_bytes(y))],
        None => Seq::empty(),
    }) + (match power {
        Some(p) => seq![(Field::S, ascii_bytes(p))],
        None => Seq::empty(),
    }) + (match feedrate {
        Some(f) => seq![(Field::F, ascii_bytes(f))],
        None => Seq::empty(),
    })
}

pub(crate) proof fn lemma_encode_concat(a: Seq<char>, b: Seq<char>)
    ensures
        encode_utf8(a + b) == encode_utf8(a) + encode_utf8(b),
    decreases a.len(),
{
    if a.len() == 0 {
        assert(a + b =~= b);
        assert(encode_utf8(a) =~= Seq::<u8>::empty());
        assert(encode_utf8(a) + encode_utf8(b) =~= encode_utf8(b));
    } else {
        assert((a + b)[0] == a[0]);
        assert((a + b).drop_first() =~= a.drop_first() + b);
        lemma_encode_concat(a.drop_first(), b);
        assert(encode_utf8(a + b) =~= encode_utf8(a) + encode_utf8(b));
    }
}

pub(crate) proof fn lemma_encode_ascii(w: Seq<char>)
    requires
        is_ascii_chars(w),
    ensures
        encode_utf8(w) == ascii_bytes(w),
{
    is_ascii_chars_encode_utf8(w);
    assert(encode_utf8(w) =~= ascii_bytes(w));
}

pub(crate) proof fn lemma_tokens_word(w: Seq<u8>, rest: Seq<u8>)
    requires
        w.len() > 0,
        forall|i: int| 0 <= i < w.len() ==> !is_ascii_ws(#[trigger] w[i]),
    ensures
        tokens(w + seq![0x20u8] + rest) == seq![w] + tokens(rest),
{
    let all = w + seq![0x20u8] + rest;
    assert forall|m: int| 0 <= m < w.len() implies !is_ascii_ws(#[trigger] all[m]) by {
        assert(all[m] == w[m]);
    }
    assert(all[w.len() as int] == 0x20u8);
    lemma_word_len_at(all, w.len() as int);
    assert(all[0] == w[0]);
    assert(all.take(w.len() as int) =~= w);
    let tail = all.skip(w.len() as int);
    assert(tail =~= seq![0x20u8] + rest);
    assert(tail[0] == 0x20u8);
    assert(tail.drop_first() =~= rest);
    assert(tokens(tail) == tokens(rest));
    assert(tokens(all) == seq![w] + tokens(tail));
}

pub(crate) proof fn lemma_word_len_at(s: Seq<u8>, k: int)
    requires
        0 <= k < s.len(),
        forall|m: int| 0 <= m < k ==> !is_ascii_ws(#[trigger] s[m]),
        is_ascii_ws(s[k]),
    ensures
        word_len(s) == k,
    decreases k,
{
    if k > 0 {
        let t = s.drop_first();
        assert forall|m: int| 0 <= m < k - 1 implies !is_ascii_ws(#[trigger] t[m]) by {
            assert(t[m] == s[m + 1]);
        }
        assert(t[k - 1] == s[k]);
        lemma_word_len_at(t, k - 1);
    }
}

/// Tokenising a word followed by a space and more text.
pub(crate) proof fn lemma_unit(w: Seq<char>, rest: Seq<char>)
    requires
        is_word(w),
    ensures
        tokens(encode_utf8(w + seq![' '] + rest)) == seq![ascii_bytes(w)] + tokens(encode_utf8(rest)),
{
    lemma_encode_concat(w + seq![' '], rest);
    lemma_encode_concat(w, seq![' ']);
    lemma_encode_ascii(w);
    let sp: Seq<char> = seq![' '];
    assert(is_ascii_chars(sp));
    lemma_encode_ascii(sp);
    assert(encode_utf8(sp) =~= seq![0x20u8]);
    let wb = ascii_bytes(w);
    assert forall|i: int| 0 <= i < wb.len() implies !is_ascii_ws(#[trigger] wb[i]) by {
        assert(wb[i] == w[i] as u8);
    }
    lemma_tokens_word(wb, encode_utf8(rest));
}

pub(crate) proof fn lemma_word_prefixed(c: char, w: Seq<char>)
    requires
        is_word(w),
        '\0' <= c <= '\u{7f}',
        !is_ascii_ws(c as u8),
    ensures
        is_word(seq![c] + w),
        ascii_bytes(seq![c] + w) == seq![c as u8] + ascii_bytes(w),
{
    let cw = seq![c] + w;
    assert forall|i: int| 0 <= i < cw.len() implies '\0' <= #[trigger] cw[i] <= '\u{7f}' by {
        if i > 0 {
            assert(cw[i] == w[i - 1]);
        }
    }
    assert forall|i: int| 0 <= i < cw.len() implies !is_ascii_ws(#[trigger] cw[i] as u8) by {
        if i > 0 {
            assert(cw[i] == w[i - 1]);
        }
    }
    assert(ascii_bytes(cw) =~= seq![c as u8] + ascii_bytes(w));
}

/// Words that open no comment.
pub open spec fn plain_words(a: Seq<Seq<u8>>) -> bool {
    forall|i: int| 0 <= i < a.len() ==> (#[trigger] a[i]).len() > 0 && !is_comment_start(a[i][0])
}

pub(crate) proof fn lemma_scan_concat(a: Seq<Seq<u8>>, b: Seq<Seq<u8>>)
    requires
        plain_words(a),
    ensures
        scan_numbers(a + b) == scan_numbers(a) + scan_numbers(b),
        scan_code(a + b) == (match scan_code(b) {
            Some(c) => Some(c),
            None => scan_code(a),
        }),
    decreases a.len(),
{
    if a.len() == 0 {
        assert(a + b =~= b);
        assert(scan_numbers(a) + scan_numbers(b) =~= scan_numbers(b));
    } else {
        let ab = a + b;
        assert(ab[0] == a[0]);
        assert(ab.drop_first() =~= a.drop_first() + b);
        assert(plain_words(a.drop_first())) by {
            assert forall|i: int| 0 <= i < a.drop_first().len() implies
                (#[trigger] a.drop_first()[i]).len() > 0 && !is_comment_start(a.drop_first()[i][0]) by {
                assert(a.drop_first()[i] == a[i + 1]);
            }
        }
        lemma_scan_concat(a.drop_first(), b);
        assert(a[0].len() > 0 && !is_comment_start(a[0][0]));
        assert(scan_numbers(ab) =~= scan_numbers(a) + scan_numbers(b));
    }
}

/// The tokens of a field, then the rest.
proof fn lemma_field_unit(letter: char, w: Seq<char>, rest: Seq<char>)
    requires
        is_word(w),
        '\0' <= letter <= '\u{7f}',
        !is_ascii_ws(letter as u8),
    ensures
        tokens(encode_utf8(field_text(letter, w) + rest)) == seq![seq![letter as u8] + ascii_bytes(w)]
            + tokens(encode_utf8(rest)),
{
    lemma_word_prefixed(letter, w);
    assert(field_text(letter, w) + rest =~= (seq![letter] + w) + seq![' '] + rest);
    lemma_unit(seq![letter] + w, rest);
}

/// The word that printing `code` writes.
pub open spec fn op_words(code: Option<GCodeOp>) -> Seq<Seq<u8>> {
    match code {
        Some(op) => seq![ascii_bytes(op_name(op))],
        None => Seq::empty(),
    }
}

/// The word that printing a field writes.
pub open spec fn field_words(letter: char, value: Option<Seq<char>>) -> Seq<Seq<u8>> {
    match value {
        Some(w) => seq![seq![letter as u8] + ascii_bytes(w)],
        None => Seq::empty(),
    }
}

/// The words that printing a coordinate writes.
pub open spec fn coord_words(coord: Option<(Seq<char>, Seq<char>)>) -> Seq<Seq<u8>> {
    match coord {
        Some((x, y)) => seq![seq!['X' as u8] + ascii_bytes(x), seq!['Y' as u8] + ascii_bytes(y)],
        None => Seq::empty(),
    }
}

proof fn lemma_opt_field(letter: char, value: Option<Seq<char>>, rest: Seq<char>)
    requires
        value matches Some(w) ==> is_word(w),
        '\0' <= letter <= '\u{7f}',
        !is_ascii_ws(letter as u8),
    ensures
        tokens(encode_utf8(opt_field_text(letter, value) + rest)) == field_words(letter, value) + tokens(
            encode_utf8(rest),
        ),
{
    match value {
        Some(w) => {
            lemma_field_unit(letter, w, rest);
        },
        None => {
            assert(Seq::<char>::empty() + rest =~= rest);
            assert(field_words(letter, value) + tokens(encode_utf8(rest)) =~= tokens(encode_utf8(rest)));
        },
    }
}

proof fn lemma_op_name_word(op: GCodeOp)
    ensures
        is_word(op_name(op)),
{
    let nm = op_name(op);
    assert forall|i: int| 0 <= i < nm.len() implies '\0' <= #[trigger] nm[i] <= '\u{7f}' && !is_ascii_ws(
        nm[i] as u8,
    ) by {
        match op {
            GCodeOp::G0 => {},
            GCodeOp::G1 => {},
            GCodeOp::G21 => {},
            GCodeOp::G90 => {},
            GCodeOp::M4 => {},
            GCodeOp::M5 => {},
            GCodeOp::UNKNOWN => {},
        }
    }
}

proof fn lemma_code_tokens(code: Option<GCodeOp>, rest: Seq<char>)
    ensures
        tokens(encode_utf8(code_text(code) + rest)) == op_words(code) + tokens(encode_utf8(rest)),
{
    match code {
        Some(op) => {
            lemma_op_name_word(op);
            assert(code_text(code) + rest =~= op_name(op) + seq![' '] + rest);
            lemma_unit(op_name(op), rest);
        },
        None => {
            assert(code_text(code) + rest =~= rest);
            assert(op_words(code) + tokens(encode_utf8(rest)) =~= tokens(encode_utf8(rest)));
        },
    }
}

proof fn lemma_coord_tokens(coord: Option<(Seq<char>, Seq<char>)>, rest: Seq<char>)
    requires
        coord matches Some((x, y)) ==> is_word(x) && is_word(y),
    ensures
        tokens(encode_utf8(coord_text(coord) + rest)) == coord_words(coord) + tokens(encode_utf8(rest)),
{
    match coord {
        Some((x, y)) => {
            lemma_field_unit('Y', y, rest);
            assert(coord_text(coord) + rest =~= field_text('X', x) + (field_text('Y', y) + rest));
            lemma_field_unit('X', x, field_text('Y', y) + rest);
            assert(coord_words(coord) + tokens(encode_utf8(rest)) =~= seq![
                seq!['X' as u8] + ascii_bytes(x),
            ] + (seq![seq!['Y' as u8] + ascii_bytes(y)] + tokens(encode_utf8(rest))));
        },
        None => {
            assert(coord_text(coord) + rest =~= rest);
            assert(coord_words(coord) + tokens(encode_utf8(rest)) =~= tokens(encode_utf8(rest)));
        },
    }
}

proof fn lemma_tail_tokens(comment: Seq<char>)
    ensures
        tokens(encode_utf8(seq![';', ' '] + comment)) == seq![seq![';' as u8]] + tokens(
            encode_utf8(comment),
        ),
{
    let semi: Seq<char> = seq![';'];
    assert(seq![';', ' '] + comment =~= semi + seq![' '] + comment);
    lemma_unit(semi, comment);
    assert(ascii_bytes(semi) =~= seq![';' as u8]);
}

proof fn lemma_line_tokens(
    code: Option<GCodeOp>,
    coord: Option<(Seq<char>, Seq<char>)>,
    power: Option<Seq<char>>,
    feedrate: Option<Seq<char>>,
    comment: Option<Seq<char>>,
)
    requires
        coord matches Some((x, y)) ==> is_word(x) && is_word(y),
        power matches Some(p) ==> is_word(p),
        feedrate matches Some(f) ==> is_word(f),
    ensures
        tokens(encode_utf8(line_text(code, coord, power, feedrate, comment))) == op_words(code) + (
        coord_words(coord) + (field_words('S', power) + (field_words('F', feedrate) + (seq![
            seq![';' as u8],
        ] + tokens(encode_utf8(comment_text(comment))))))),
{
    let r0 = seq![';', ' '] + comment_text(comment);
    lemma_tail_tokens(comment_text(comment));
    let r1 = opt_field_text('F', feedrate) + r0;
    lemma_opt_field('F', feedrate, r0);
    let r2 = opt_field_text('S', power) + r1;
    lemma_opt_field('S', power, r1);
    let r3 = coord_text(coord) + r2;
    lemma_coord_tokens(coord, r2);
    let r4 = code_text(code) + r3;
    lemma_code_tokens(code, r3);
    lemma_line_assoc(code, coord, power, feedrate, comment);
}

proof fn lemma_line_assoc(
    code: Option<GCodeOp>,
    coord: Option<(Seq<char>, Seq<char>)>,
    power: Option<Seq<char>>,
    feedrate: Option<Seq<char>>,
    comment: Option<Seq<char>>,
)
    ensures
        line_text(code, coord, power, feedrate, comment) == code_text(code) + (coord_text(coord) + (
        opt_field_text('S', power) + (opt_field_text('F', feedrate) + (seq![';', ' '] + comment_text(
            comment,
        ))))),
{
    assert(line_text(code, coord, power, feedrate, comment) =~= code_text(code) + (coord_text(coord) + (
    opt_field_text('S', power) + (opt_field_text('F', feedrate) + (seq![';', ' '] + comment_text(
        comment,
    ))))));
}

pub(crate) proof fn lemma_scan_single(t: Seq<u8>)
    requires
        t.len() > 0,
        !is_comment_start(t[0]),
    ensures
        plain_words(seq![t]),
        scan_code(seq![t]) == (if is_code_letter(t[0]) {
            Some(t)
        } else {
            None
        }),
        scan_numbers(seq![t]) == (match field_of(t[0]) {
            Some(f) => seq![(f, t.drop_first())],
            None => Seq::<(Field, Seq<u8>)>::empty(),
        }),
{
    lemma_scan_cons(t, Seq::empty());
    assert(seq![t] + Seq::<Seq<u8>>::empty() =~= seq![t]);
    assert(scan_numbers(Seq::<Seq<u8>>::empty()) =~= Seq::<(Field, Seq<u8>)>::empty());
    let h: Seq<(Field, Seq<u8>)> = match field_of(t[0]) {
        Some(f) => seq![(f, t.drop_first())],
        None => Seq::<(Field, Seq<u8>)>::empty(),
    };
    assert(h + Seq::<(Field, Seq<u8>)>::empty() =~= h);
}

proof fn lemma_scan_field_words(letter: char, field: Field, value: Option<Seq<char>>)
    requires
        field_of(letter as u8) == Some(field),
        !is_code_letter(letter as u8),
        !is_comment_start(letter as u8),
    ensures
        plain_words(field_words(letter, value)),
        scan_code(field_words(letter, value)) == None::<Seq<u8>>,
        scan_numbers(field_words(letter, value)) == (match value {
            Some(w) => seq![(field, ascii_bytes(w))],
            None => Seq::<(Field, Seq<u8>)>::empty(),
        }),
{
    match value {
        Some(w) => {
            let t = seq![letter as u8] + ascii_bytes(w);
            assert(t[0] == letter as u8);
            assert(t.drop_first() =~= ascii_bytes(w));
            lemma_scan_single(t);
        },
        None => {},
    }
}

proof fn lemma_scan_coord_words(coord: Option<(Seq<char>, Seq<char>)>)
    ensures
        plain_words(coord_words(coord)),
        scan_code(coord_words(coord)) == None::<Seq<u8>>,
        scan_numbers(coord_words(coord)) == (match coord {
            Some((x, y)) => seq![(Field::X, ascii_bytes(x)), (Field::Y, ascii_bytes(y))],
            None => Seq::<(Field, Seq<u8>)>::empty(),
        }),
{
    match coord {
        Some((x, y)) => {
            let tx = seq!['X' as u8] + ascii_bytes(x);
            let ty = seq!['Y' as u8] + ascii_bytes(y);
            assert(tx[0] == 'X' as u8);
            assert(ty[0] == 'Y' as u8);
            assert(tx.drop_first() =~= ascii_bytes(x));
            assert(ty.drop_first() =~= ascii_bytes(y));
            lemma_scan_single(tx);
            lemma_scan_single(ty);
            assert(coord_words(coord) =~= seq![tx] + seq![ty]);
            lemma_scan_concat(seq![tx], seq![ty]);
            assert(plain_words(coord_words(coord))) by {
                assert forall|i: int| 0 <= i < coord_words(coord).len() implies (#[trigger] coord_words(
                    coord,
                )[i]).len() > 0 && !is_comment_start(coord_words(coord)[i][0]) by {
                    if i == 0 {
                        assert(coord_words(coord)[i] == tx);
                    } else {
                        assert(coord_words(coord)[i] == ty);
                    }
                }
            }
            assert(seq![(Field::X, ascii_bytes(x))] + seq![(Field::Y, ascii_bytes(y))] =~= seq![
                (Field::X, ascii_bytes(x)),
                (Field::Y, ascii_bytes(y)),
            ]);
        },
        None => {},
    }
}

proof fn lemma_scan_op_words(code: Option<GCodeOp>)
    ensures
        plain_words(op_words(code)),
        scan_numbers(op_words(code)) == Seq::<(Field, Seq<u8>)>::empty(),
        parsed_op(scan_code(op_words(code))) == (if code == Some(GCodeOp::G0) {
            Some(GCodeOp::G0)
        } else {
            None
        }),
{
    match code {
        Some(op) => {
            let t = ascii_bytes(op_name(op));
            match op {
                GCodeOp::G0 => { assert(t =~= seq!['G' as u8, '0' as u8]); },
                GCodeOp::G1 => { assert(t =~= seq!['G' as u8, '1' as u8]); },
                GCodeOp::G21 => { assert(t =~= seq!['G' as u8, '2' as u8, '1' as u8]); },
                GCodeOp::G90 => { assert(t =~= seq!['G' as u8, '9' as u8, '0' as u8]); },
                GCodeOp::M4 => { assert(t =~= seq!['M' as u8, '4' as u8]); },
                GCodeOp::M5 => { assert(t =~= seq!['M' as u8, '5' as u8]); },
                GCodeOp::UNKNOWN => {
                    assert(t =~= seq!['U' as u8, 'N' as u8, 'K' as u8, 'N' as u8, 'O' as u8, 'W' as u8, 'N' as u8]);
                },
            }
            lemma_scan_single(t);
            if op != GCodeOp::G0 {
                assert(t != seq!['G' as u8, '0' as u8]) by {
                    if op == GCodeOp::G1 || op == GCodeOp::M4 || op == GCodeOp::M5 {
                        assert(t[1] != ('0' as u8) || t[0] != ('G' as u8));
                    } else {
                        assert(t.len() != 2);
                    }
                }
                assert(t != seq!['g' as u8, '0' as u8]) by {
                    if op == GCodeOp::G1 || op == GCodeOp::M4 || op == GCodeOp::M5 {
                        assert(t[0] != ('g' as u8));
                    } else {
                        assert(t.len() != 2);
                    }
                }
            }
        },
        None => {},
    }
}

/// Reading back a printed G-code line: the numbers come back as the words
/// that were printed, in order, and the operation comes back as a rapid move
/// where a rapid move was printed and as no operation otherwise (the reader
/// knows no other operation). What follows `; ` is never read.
pub proof fn lemma_scan_format_line(
    code: Option<GCodeOp>,
    coord: Option<(Seq<char>, Seq<char>)>,
    power: Option<Seq<char>>,
    feedrate: Option<Seq<char>>,
    comment: Option<Seq<char>>,
)
    requires
        coord matches Some((x, y)) ==> is_word(x) && is_word(y),
        power matches Some(p) ==> is_word(p),
        feedrate matches Some(f) ==> is_word(f),
    ensures
        ({
            let toks = tokens(encode_utf8(line_text(code, coord, power, feedrate, comment)));
            &&& parsed_op(scan_code(toks)) == (if code == Some(GCodeOp::G0) {
                Some(GCodeOp::G0)
            } else {
                None
            })
            &&& scan_numbers(toks) == printed_fields(coord, power, feedrate)
        }),
{
    lemma_line_tokens(code, coord, power, feedrate, comment);
    let t = tokens(encode_utf8(comment_text(comment)));
    let tail = seq![seq![';' as u8]] + t;
    lemma_scan_cons(seq![';' as u8], t);
    let ow = op_words(code);
    let cw = coord_words(coord);
    let sw = field_words('S', power);
    let fw = field_words('F', feedrate);
    lemma_scan_op_words(code);
    lemma_scan_coord_words(coord);
    lemma_scan_field_words('S', Field::S, power);
    lemma_scan_field_words('F', Field::F, feedrate);
    lemma_scan_concat(fw, tail);
    lemma_scan_concat(sw, fw + tail);
    lemma_scan_concat(cw, sw + (fw + tail));
    lemma_scan_concat(ow, cw + (sw + (fw + tail)));
    assert(scan_numbers(tail) =~= Seq::<(Field, Seq<u8>)>::empty());
    assert(scan_numbers(ow + (cw + (sw + (fw + tail)))) =~= printed_fields(coord, power, feedrate));
}

} // verus!
