//! What reading back the generated G-code gives.
use vstd::prelude::*;
use vstd::utf8::{encode_utf8, is_ascii_chars};

use crate::gcode::{
    field_of, is_ascii_ws, is_code_letter, is_comment_start, lemma_scan_cons, lemma_word_len_run,
    scan_code, scan_numbers, tokens, Field, GCodeOp,
};
use crate::line_roundtrip::{
    ascii_bytes, is_word, lemma_encode_ascii, lemma_scan_concat, lemma_scan_single, lemma_unit,
    lemma_word_prefixed, parsed_op, plain_words,
};
use crate::plan::{Command, PointId};
use crate::workspace::{command_in_range, command_text, gcode_header, xy_text};

verus! {

/// The operation that reading back a line finds.
pub open spec fn read_op(line: Seq<char>) -> Option<GCodeOp> {
    parsed_op(scan_code(tokens(encode_utf8(line))))
}

/// The field words that reading back a line finds, with the text of each number.
pub open spec fn read_numbers(line: Seq<char>) -> Seq<(Field, Seq<u8>)> {
    scan_numbers(tokens(encode_utf8(line)))
}

/// Words joined by single spaces.
pub open spec fn joined(ws: Seq<Seq<char>>) -> Seq<char>
    decreases ws.len(),
{
    if ws.len() == 0 {
        Seq::empty()
    } else if ws.len() == 1 {
        ws[0]
    } else {
        ws[0] + seq![' '] + joined(ws.drop_first())
    }
}

proof fn lemma_last_word(w: Seq<char>)
    requires
        is_word(w),
    ensures
        tokens(encode_utf8(w)) == seq![ascii_bytes(w)],
{
    lemma_encode_ascii(w);
    let b = ascii_bytes(w);
    assert forall|m: int| 0 <= m < b.len() implies !is_ascii_ws(#[trigger] b[m]) by {
        assert(b[m] == w[m] as u8);
    }
    lemma_word_len_run(b, b.len() as int);
    assert(b.take(b.len() as int) =~= b);
    assert(b.skip(b.len() as int) =~= Seq::<u8>::empty());
    assert(tokens(Seq::<u8>::empty()) =~= Seq::<Seq<u8>>::empty());
    assert(b[0] == w[0] as u8);
    assert(seq![b] + Seq::<Seq<u8>>::empty() =~= seq![b]);
}

proof fn lemma_joined_tokens(ws: Seq<Seq<char>>)
    requires
        forall|i: int| 0 <= i < ws.len() ==> is_word(#[trigger] ws[i]),
    ensures
        tokens(encode_utf8(joined(ws))) == ws.map_values(|w: Seq<char>| ascii_bytes(w)),
    decreases ws.len(),
{
    if ws.len() == 0 {
        assert(encode_utf8(Seq::<char>::empty()) =~= Seq::<u8>::empty());
        assert(tokens(Seq::<u8>::empty()) =~= Seq::<Seq<u8>>::empty());
        assert(ws.map_values(|w: Seq<char>| ascii_bytes(w)) =~= Seq::<Seq<u8>>::empty());
    } else if ws.len() == 1 {
        assert(is_word(ws[0]));
        lemma_last_word(ws[0]);
        assert(ws.map_values(|w: Seq<char>| ascii_bytes(w)) =~= seq![ascii_bytes(ws[0])]);
    } else {
        assert(is_word(ws[0]));
        let rest = ws.drop_first();
        assert forall|i: int| 0 <= i < rest.len() implies is_word(#[trigger] rest[i]) by {
            assert(rest[i] == ws[i + 1]);
        }
        lemma_joined_tokens(rest);
        lemma_unit(ws[0], joined(rest));
        assert(ws.map_values(|w: Seq<char>| ascii_bytes(w)) =~= seq![ascii_bytes(ws[0])] + rest.map_values(
            |w: Seq<char>| ascii_bytes(w),
        ));
    }
}

/// A word that starts with a field letter.
pub open spec fn is_field_word(w: Seq<u8>) -> bool {
    w.len() > 0 && field_of(w[0]) is Some
}

/// What scanning makes of a field word.
pub open spec fn field_word_view(w: Seq<u8>) -> (Field, Seq<u8>) {
    (field_of(w[0]).unwrap(), w.drop_first())
}

proof fn lemma_scan_fields(fs: Seq<Seq<u8>>)
    requires
        forall|i: int| 0 <= i < fs.len() ==> is_field_word(#[trigger] fs[i]),
    ensures
        plain_words(fs),
        scan_code(fs) == None::<Seq<u8>>,
        scan_numbers(fs) == fs.map_values(|w: Seq<u8>| field_word_view(w)),
    decreases fs.len(),
{
    if fs.len() > 0 {
        let rest = fs.drop_first();
        assert forall|i: int| 0 <= i < rest.len() implies is_field_word(#[trigger] rest[i]) by {
            assert(rest[i] == fs[i + 1]);
        }
        lemma_scan_fields(rest);
        assert(is_field_word(fs[0]));
        lemma_scan_cons(fs[0], rest);
        assert(fs =~= seq![fs[0]] + rest);
        assert(fs.map_values(|w: Seq<u8>| field_word_view(w)) =~= seq![field_word_view(fs[0])]
            + rest.map_values(|w: Seq<u8>| field_word_view(w)));
        assert forall|i: int| 0 <= i < fs.len() implies (#[trigger] fs[i]).len() > 0 && !is_comment_start(
            fs[i][0],
        ) by {
            assert(is_field_word(fs[i]));
        }
    } else {
        assert(fs.map_values(|w: Seq<u8>| field_word_view(w)) =~= Seq::<(Field, Seq<u8>)>::empty());
    }
}

proof fn lemma_scan_code_then_fields(c: Seq<u8>, fs: Seq<Seq<u8>>)
    requires
        c.len() > 0,
        is_code_letter(c[0]),
        forall|i: int| 0 <= i < fs.len() ==> is_field_word(#[trigger] fs[i]),
    ensures
        scan_code(seq![c] + fs) == Some(c),
        scan_numbers(seq![c] + fs) == fs.map_values(|w: Seq<u8>| field_word_view(w)),
{
    lemma_scan_fields(fs);
    lemma_scan_cons(c, fs);
}

/// The words of the line of a command.
pub open spec fn command_words(c: Command, pts: Seq<(Seq<char>, Seq<char>)>) -> Seq<Seq<char>> {
    match c {
        Command::LaserOff => seq![seq!['M', '5']],
        Command::LaserOn => seq![seq!['M', '4']],
        Command::Rapid(p) => seq![
            seq!['G', '0'],
            seq!['X'] + pts[p as int].0,
            seq!['Y'] + pts[p as int].1,
        ],
        Command::Cut { to, set_power, set_feed } => seq![
            seq!['G', '1'],
            seq!['X'] + pts[to as int].0,
            seq!['Y'] + pts[to as int].1,
        ] + (if set_power {
            seq![seq!['S', '1', '0', '0', '0']]
        } else {
            Seq::empty()
        }) + (if set_feed {
            seq![seq!['F', '1', '0', '0']]
        } else {
            Seq::empty()
        }),
    }
}

/// The field words that reading back the line of a command finds.
pub open spec fn command_fields(c: Command, pts: Seq<(Seq<char>, Seq<char>)>) -> Seq<(Field, Seq<u8>)> {
    match c {
        Command::Rapid(p) => seq![
            (Field::X, ascii_bytes(pts[p as int].0)),
            (Field::Y, ascii_bytes(pts[p as int].1)),
        ],
        Command::Cut { to, set_power, set_feed } => seq![
            (Field::X, ascii_bytes(pts[to as int].0)),
            (Field::Y, ascii_bytes(pts[to as int].1)),
        ] + (if set_power {
            seq![(Field::S, seq!['1' as u8, '0' as u8, '0' as u8, '0' as u8])]
        } else {
            Seq::empty()
        }) + (if set_feed {
            seq![(Field::F, seq!['1' as u8, '0' as u8, '0' as u8])]
        } else {
            Seq::empty()
        }),
        _ => Seq::empty(),
    }
}

/// The printed coordinates of every point are words.
pub open spec fn points_are_words(pts: Seq<(Seq<char>, Seq<char>)>) -> bool {
    forall|p: int| 0 <= p < pts.len() ==> is_word(#[trigger] pts[p].0) && is_word(pts[p].1)
}

proof fn lemma_literal_word(w: Seq<char>)
    requires
        w.len() > 0,
        forall|i: int| 0 <= i < w.len() ==> ('\0' <= #[trigger] w[i] <= '\u{7f}') && !is_ascii_ws(w[i] as u8),
    ensures
        is_word(w),
{
}

proof fn lemma_command_text_joined(c: Command, pts: Seq<(Seq<char>, Seq<char>)>)
    requires
        command_in_range(c, pts.len()),
    ensures
        command_text(c, pts) == joined(command_words(c, pts)),
{
    let ws = command_words(c, pts);
    match c {
        Command::LaserOff => {},
        Command::LaserOn => {},
        Command::Rapid(p) => {
            let x = seq!['X'] + pts[p as int].0;
            let y = seq!['Y'] + pts[p as int].1;
            assert(ws.drop_first().drop_first() =~= seq![y]);
            assert(joined(ws.drop_first().drop_first()) == y);
            assert(ws.drop_first() =~= seq![x, y]);
            assert(joined(ws.drop_first()) == x + seq![' '] + y);
            assert(command_text(c, pts) =~= seq!['G', '0'] + seq![' '] + (x + seq![' '] + y));
        },
        Command::Cut { to, set_power, set_feed } => {
            let x = seq!['X'] + pts[to as int].0;
            let y = seq!['Y'] + pts[to as int].1;
            let s = seq!['S', '1', '0', '0', '0'];
            let f = seq!['F', '1', '0', '0'];
            let tail: Seq<Seq<char>> = (if set_power {
                seq![s]
            } else {
                Seq::empty()
            }) + (if set_feed {
                seq![f]
            } else {
                Seq::empty()
            });
            let tail_text: Seq<char> = (if set_power {
                seq![' '] + s
            } else {
                Seq::empty()
            }) + (if set_feed {
                seq![' '] + f
            } else {
                Seq::empty()
            });
            // joined of [y] + tail
            let yt = seq![y] + tail;
            assert(joined(seq![f]) == f);
            assert(joined(seq![s]) == s);
            assert(joined(seq![y]) == y);
            if set_power && set_feed {
                assert(yt.drop_first().drop_first() =~= seq![f]);
                assert(yt.drop_first() =~= seq![s, f]);
                assert(joined(yt.drop_first()) == s + seq![' '] + f);
            } else if set_power {
                assert(yt.drop_first() =~= seq![s]);
            } else if set_feed {
                assert(yt.drop_first() =~= seq![f]);
            } else {
                assert(yt =~= seq![y]);
            }
            assert(joined(yt) =~= y + tail_text);
            assert(ws =~= seq![seq!['G', '1'], x] + yt);
            assert(ws.drop_first() =~= seq![x] + yt);
            assert((seq![x] + yt).drop_first() =~= yt);
            assert(joined(ws.drop_first()) == x + seq![' '] + joined(yt));
            assert(command_text(c, pts) =~= seq!['G', '1'] + seq![' '] + (x + seq![' '] + joined(yt)));
        },
    }
}

/// Reading back the line of a command: a rapid move reads back as a rapid
/// move (`G0`) with the printed coordinates of its target; every other
/// command reads back as a line without an operation, the reader knowing no
/// other. The numbers come back as the words that were printed.
pub proof fn lemma_command_read_back(c: Command, pts: Seq<(Seq<char>, Seq<char>)>)
    requires
        command_in_range(c, pts.len()),
        points_are_words(pts),
    ensures
        read_op(command_text(c, pts)) == (match c {
            Command::Rapid(_) => Some(GCodeOp::G0),
            _ => None,
        }),
        read_numbers(command_text(c, pts)) == command_fields(c, pts),
{
    lemma_command_text_joined(c, pts);
    let ws = command_words(c, pts);
    assert forall|i: int| 0 <= i < ws.len() implies is_word(#[trigger] ws[i]) by {
        match c {
            Command::LaserOff => {
                lemma_literal_word(seq!['M', '5']);
            },
            Command::LaserOn => {
                lemma_literal_word(seq!['M', '4']);
            },
            Command::Rapid(p) => {
                assert(is_word(pts[p as int].0) && is_word(pts[p as int].1));
                lemma_literal_word(seq!['G', '0']);
                lemma_word_prefixed('X', pts[p as int].0);
                lemma_word_prefixed('Y', pts[p as int].1);
            },
            Command::Cut { to, set_power, set_feed } => {
                assert(is_word(pts[to as int].0) && is_word(pts[to as int].1));
                lemma_literal_word(seq!['G', '1']);
                lemma_literal_word(seq!['S', '1', '0', '0', '0']);
                lemma_literal_word(seq!['F', '1', '0', '0']);
                lemma_word_prefixed('X', pts[to as int].0);
                lemma_word_prefixed('Y', pts[to as int].1);
            },
        }
    }
    lemma_joined_tokens(ws);
    let toks = ws.map_values(|w: Seq<char>| ascii_bytes(w));
    let first = toks[0];
    let fs = toks.drop_first();
    assert(toks =~= seq![first] + fs);
    match c {
        Command::LaserOff => {
            assert(first =~= seq!['M' as u8, '5' as u8]);
            lemma_scan_code_then_fields(first, fs);
        },
        Command::LaserOn => {
            assert(first =~= seq!['M' as u8, '4' as u8]);
            lemma_scan_code_then_fields(first, fs);
        },
        Command::Rapid(p) => {
            assert(first =~= seq!['G' as u8, '0' as u8]);
            lemma_word_prefixed('X', pts[p as int].0);
            lemma_word_prefixed('Y', pts[p as int].1);
            assert(fs =~= seq![seq!['X' as u8] + ascii_bytes(pts[p as int].0), seq!['Y' as u8] + ascii_bytes(
                pts[p as int].1,
            )]);
            assert(forall|i: int| 0 <= i < fs.len() ==> is_field_word(#[trigger] fs[i]));
            lemma_scan_code_then_fields(first, fs);
            assert((seq!['X' as u8] + ascii_bytes(pts[p as int].0)).drop_first() =~= ascii_bytes(pts[p as int].0));
            assert((seq!['Y' as u8] + ascii_bytes(pts[p as int].1)).drop_first() =~= ascii_bytes(pts[p as int].1));
            assert(fs.map_values(|w: Seq<u8>| field_word_view(w)) =~= command_fields(c, pts));
        },
        Command::Cut { to, set_power, set_feed } => {
            assert(first =~= seq!['G' as u8, '1' as u8]);
            assert(first != seq!['G' as u8, '0' as u8]);
            lemma_word_prefixed('X', pts[to as int].0);
            lemma_word_prefixed('Y', pts[to as int].1);
            let bx = seq!['X' as u8] + ascii_bytes(pts[to as int].0);
            let by = seq!['Y' as u8] + ascii_bytes(pts[to as int].1);
            let bs = seq!['S' as u8, '1' as u8, '0' as u8, '0' as u8, '0' as u8];
            let bf = seq!['F' as u8, '1' as u8, '0' as u8, '0' as u8];
            assert(ascii_bytes(seq!['S', '1', '0', '0', '0']) =~= bs);
            assert(ascii_bytes(seq!['F', '1', '0', '0']) =~= bf);
            let expect: Seq<Seq<u8>> = seq![bx, by] + (if set_power {
                seq![bs]
            } else {
                Seq::empty()
            }) + (if set_feed {
                seq![bf]
            } else {
                Seq::empty()
            });
            assert(fs =~= expect);
            assert(forall|i: int| 0 <= i < fs.len() ==> is_field_word(#[trigger] fs[i]));
            lemma_scan_code_then_fields(first, fs);
            assert(bx.drop_first() =~= ascii_bytes(pts[to as int].0));
            assert(by.drop_first() =~= ascii_bytes(pts[to as int].1));
            assert(bs.drop_first() =~= seq!['1' as u8, '0' as u8, '0' as u8, '0' as u8]);
            assert(bf.drop_first() =~= seq!['1' as u8, '0' as u8, '0' as u8]);
            assert(fs.map_values(|w: Seq<u8>| field_word_view(w)) =~= command_fields(c, pts));
        },
    }
}


/// `k` spaces.
pub open spec fn spaces(k: nat) -> Seq<char> {
    Seq::new(k, |i: int| ' ')
}

proof fn lemma_skip_spaces(k: nat, rest: Seq<char>)
    ensures
        tokens(encode_utf8(spaces(k) + rest)) == tokens(encode_utf8(rest)),
    decreases k,
{
    if k > 0 {
        lemma_skip_spaces((k - 1) as nat, rest);
        let tail = spaces((k - 1) as nat) + rest;
        assert(spaces(k) + rest =~= seq![' '] + tail);
        crate::line_roundtrip::lemma_encode_concat(seq![' '], tail);
        let sp: Seq<char> = seq![' '];
        assert(is_ascii_chars(sp));
        lemma_encode_ascii(sp);
        assert(encode_utf8(sp) =~= seq![0x20u8]);
        let b = seq![0x20u8] + encode_utf8(tail);
        assert(b[0] == 0x20u8);
        assert(b.drop_first() =~= encode_utf8(tail));
    } else {
        assert(spaces(k) + rest =~= rest);
    }
}

proof fn lemma_comment_line(w: Seq<char>, k: nat, rest: Seq<char>)
    requires
        is_word(w),
        is_code_letter(w[0] as u8),
        k >= 1,
    ensures
        read_op(w + spaces(k) + seq![';', ' '] + rest) == spec_parse_op_of(ascii_bytes(w)),
        read_numbers(w + spaces(k) + seq![';', ' '] + rest) == Seq::<(Field, Seq<u8>)>::empty(),
{
    let line = w + spaces(k) + seq![';', ' '] + rest;
    let semi: Seq<char> = seq![';'];
    lemma_literal_word(semi);
    let after = semi + seq![' '] + rest;
    assert(line =~= w + seq![' '] + (spaces((k - 1) as nat) + after));
    lemma_unit(w, spaces((k - 1) as nat) + after);
    lemma_skip_spaces((k - 1) as nat, after);
    lemma_unit(semi, rest);
    let t = tokens(encode_utf8(rest));
    let semi_b = ascii_bytes(semi);
    assert(semi_b =~= seq![';' as u8]);
    let wb = ascii_bytes(w);
    assert(wb[0] == w[0] as u8);
    assert(wb.len() > 0);
    assert(tokens(encode_utf8(line)) =~= seq![wb] + (seq![semi_b] + t));
    lemma_scan_cons(semi_b, t);
    lemma_scan_single(wb);
    lemma_scan_concat(seq![wb], seq![semi_b] + t);
    assert(field_of(wb[0]) is None);
    assert(Seq::<(Field, Seq<u8>)>::empty() + Seq::<(Field, Seq<u8>)>::empty() =~= Seq::<(Field, Seq<u8>)>::empty());
}

/// The operation that a code word names.
pub open spec fn spec_parse_op_of(w: Seq<u8>) -> Option<GCodeOp> {
    crate::gcode::spec_parse_op(w)
}

/// Reading back the header lines: neither carries an operation the reader
/// knows, nor any number.
pub proof fn lemma_header_read_back()
    ensures
        forall|i: int| 0 <= i < 2 ==> read_op(#[trigger] gcode_header()[i]) == None::<GCodeOp>,
        forall|i: int| 0 <= i < 2 ==> read_numbers(#[trigger] gcode_header()[i]) == Seq::<(Field, Seq<u8>)>::empty(),
{
    reveal_strlit("G21         ; Set units to mm");
    reveal_strlit("G90         ; Absolute positioning");
    let g21: Seq<char> = seq!['G', '2', '1'];
    let g90: Seq<char> = seq!['G', '9', '0'];
    lemma_literal_word(g21);
    lemma_literal_word(g90);
    let r21: Seq<char> = seq!['S', 'e', 't', ' ', 'u', 'n', 'i', 't', 's', ' ', 't', 'o', ' ', 'm', 'm'];
    let r90: Seq<char> = seq![
        'A', 'b', 's', 'o', 'l', 'u', 't', 'e', ' ', 'p', 'o', 's', 'i', 't', 'i', 'o', 'n', 'i', 'n', 'g',
    ];
    assert("G21         ; Set units to mm"@ =~= g21 + spaces(9) + seq![';', ' '] + r21);
    assert("G90         ; Absolute positioning"@ =~= g90 + spaces(9) + seq![';', ' '] + r90);
    lemma_comment_line(g21, 9, r21);
    lemma_comment_line(g90, 9, r90);
    assert(ascii_bytes(g21) =~= seq!['G' as u8, '2' as u8, '1' as u8]);
    assert(ascii_bytes(g90) =~= seq!['G' as u8, '9' as u8, '0' as u8]);
    assert(gcode_header()[0] == "G21         ; Set units to mm"@);
    assert(gcode_header()[1] == "G90         ; Absolute positioning"@);
}

/// Reading back the G-code of a workspace, as a G-code file is read, line by
/// line: the header lines carry no operation that the reader knows and no
/// number; the line of each command reads back as `lemma_command_read_back`
/// says: rapid moves as rapid moves to the printed coordinates of their
/// target, every other line without an operation.
pub proof fn lemma_gcode_read_back(items: Seq<crate::plan::Cut>, origin: PointId, pts: Seq<(Seq<char>, Seq<char>)>)
    requires
        crate::workspace::cuts_in_range(items, pts.len()),
        points_are_words(pts),
    ensures
        ({
            let cmds = crate::workspace::workspace_commands(items, origin);
            let lines = gcode_header() + cmds.map_values(|c: Command| command_text(c, pts));
            &&& lines.len() == cmds.len() + 2
            &&& forall|i: int| 0 <= i < 2 ==> read_op(#[trigger] lines[i]) == None::<GCodeOp>
                && read_numbers(lines[i]) == Seq::<(Field, Seq<u8>)>::empty()
            &&& forall|i: int| 0 <= i < cmds.len() ==> read_op(#[trigger] lines[i + 2]) == (match cmds[i] {
                Command::Rapid(_) => Some(GCodeOp::G0),
                _ => None,
            }) && read_numbers(lines[i + 2]) == command_fields(cmds[i], pts)
        }),
{
    let cmds = crate::workspace::workspace_commands(items, origin);
    crate::workspace::lemma_items_in_range(items, crate::workspace::start_state(origin), pts.len());
    lemma_header_read_back();
    let lines = gcode_header() + cmds.map_values(|c: Command| command_text(c, pts));
    assert forall|i: int| 0 <= i < 2 implies read_op(#[trigger] lines[i]) == None::<GCodeOp> && read_numbers(
        lines[i],
    ) == Seq::<(Field, Seq<u8>)>::empty() by {
        assert(lines[i] == gcode_header()[i]);
    }
    assert forall|i: int| 0 <= i < cmds.len() implies read_op(#[trigger] lines[i + 2]) == (match cmds[i] {
        Command::Rapid(_) => Some(GCodeOp::G0),
        _ => None,
    }) && read_numbers(lines[i + 2]) == command_fields(cmds[i], pts) by {
        assert(lines[i + 2] == command_text(cmds[i], pts));
        assert(command_in_range(cmds[i], pts.len()));
        lemma_command_read_back(cmds[i], pts);
    }
}


/// Reading back found both an `X` and a `Y` number.
pub open spec fn has_xy(nums: Seq<(Field, Seq<u8>)>) -> bool {
    (exists|i: int| 0 <= i < nums.len() && (#[trigger] nums[i]).0 == Field::X) && (exists|j: int|
        0 <= j < nums.len() && (#[trigger] nums[j]).0 == Field::Y)
}

/// The emulator runs the G-code of a workspace to its end without failing,
/// once it is read back: where each line of the program carries the operation
/// that reading back its text finds, and a coordinate wherever that text has
/// both an `X` and a `Y` number, running the program from its first line
/// succeeds.
pub proof fn lemma_generated_program_runs(
    items: Seq<crate::plan::Cut>,
    origin: PointId,
    pts: Seq<(Seq<char>, Seq<char>)>,
    program: Seq<crate::emulator::GCodeLine>,
    start: PointId,
    positioning: crate::emulator::Positioning,
)
    requires
        crate::workspace::cuts_in_range(items, pts.len()),
        points_are_words(pts),
        ({
            let lines = gcode_header() + crate::workspace::workspace_commands(items, origin).map_values(
                |c: Command| command_text(c, pts),
            );
            &&& program.len() == lines.len()
            &&& forall|i: int|
                0 <= i < program.len() ==> (#[trigger] program[i]).code == read_op(lines[i]) && (has_xy(
                    read_numbers(lines[i]),
                ) ==> program[i].coord is Some)
        }),
    ensures
        crate::emulator::run_spec(
            crate::emulator::EmuView { lines: program, pos: start, current_line: 0, positioning },
        ).0 is Ok,
{
    let cmds = crate::workspace::workspace_commands(items, origin);
    let lines = gcode_header() + cmds.map_values(|c: Command| command_text(c, pts));
    lemma_gcode_read_back(items, origin, pts);
    assert forall|k: int| 0 <= k < program.len() implies crate::emulator::line_ok(#[trigger] program[k]) by {
        if k < 2 {
            assert(read_op(lines[k]) == None::<GCodeOp>);
        } else {
            let i = k - 2;
            assert(read_op(lines[i + 2]) == (match cmds[i] {
                Command::Rapid(_) => Some(GCodeOp::G0),
                _ => None,
            }));
            if let Command::Rapid(p) = cmds[i] {
                let nums = read_numbers(lines[i + 2]);
                assert(nums == command_fields(cmds[i], pts));
                assert(nums[0].0 == Field::X);
                assert(nums[1].0 == Field::Y);
                assert(has_xy(nums));
            }
        }
    }
    crate::emulator::lemma_run_outcome(
        crate::emulator::EmuView { lines: program, pos: start, current_line: 0, positioning },
    );
}

} // verus!
