//! What the parser reads back from the lines that the writer writes.

use vstd::prelude::*;

use crate::color::{reference_code, resolved, SpecColor};
use crate::document::BfcCertification;
use crate::elements::{BfcStatement, SpecHeader, SpecMeta, SpecPartReference, SpecPoint, SpecShape};
use crate::number::{decimal, is_literal_char, is_real_literal};
use crate::parser::{
    after_token, bfc_meaning, is_separator, point_at, read_decimals, skip_separators,
    spec_parse_line_0, spec_parse_line_1, spec_parse_shape, spec_read_decimal, spec_read_u32,
    token, u32_token_value, word_end, SpecLine0,
};
use crate::text::{is_white_space, trim_end_ws};
use crate::writer::{
    bfc_certification_text, bfc_statement_text, color_text, header_text, meta_text, numbers_text,
    part_reference_text, point_text, points_text, shape_text,
};
use crate::Winding;

verus! {

/// Whether `s` is one word: not empty, with no separator in it, and not ending
/// in white space.
pub open spec fn is_word(s: Seq<char>) -> bool {
    &&& s.len() > 0
    &&& forall|i: int| 0 <= i < s.len() ==> !is_separator(#[trigger] s[i])
    &&& !is_white_space(s.last())
}

/// Whether `s` reads back as itself when it is the rest of a line: it does
/// not start with a separator nor end in white space.
pub open spec fn is_plain_text(s: Seq<char>) -> bool {
    &&& s.len() > 0
    &&& !is_separator(s[0])
    &&& !is_white_space(s.last())
}

proof fn lemma_word_end_at(s: Seq<char>, i: int, k: int)
    requires
        0 <= i <= k <= s.len(),
        forall|j: int| i <= j < k ==> !is_separator(#[trigger] s[j]),
        k == s.len() || is_separator(s[k]),
    ensures
        word_end(s, i) == k,
    decreases k - i,
{
    if i < k {
        lemma_word_end_at(s, i + 1, k);
    }
}

proof fn lemma_trim_plain(s: Seq<char>)
    requires
        s.len() > 0,
        !is_white_space(s.last()),
    ensures
        trim_end_ws(s) == s,
{
}

proof fn lemma_trim_newline(s: Seq<char>)
    requires
        s.len() > 0,
        !is_white_space(s.last()),
    ensures
        trim_end_ws(s + seq!['\n']) == s,
{
    let t = s + seq!['\n'];
    assert(t.last() == '\n');
    assert(is_white_space('\n'));
    assert(('\n' as u32) == 0x0a);
    assert(is_white_space(t.last()));
    assert(t.drop_last() =~= s);
    lemma_trim_plain(s);
    assert(trim_end_ws(t) == trim_end_ws(t.drop_last()));
}

/// The characters after the `0` of a line `0 x`.
proof fn lemma_after_zero(x: Seq<char>)
    ensures
        after_token(seq!['0', ' '] + x, false) == x,
{
    let s = seq!['0', ' '] + x;
    assert(s[0] == '0' && s[1] == ' ');
    assert(skip_separators(s, 0) == 0);
    lemma_word_end_at(s, 0, 1);
    assert(s.skip(2) =~= x);
}

/// A line `w\n` read whole.
proof fn lemma_glob_line(w: Seq<char>)
    requires
        is_plain_text(w),
    ensures
        token(w + seq!['\n'], true) == Some(w),
        token(w, true) == Some(w),
{
    let t = w + seq!['\n'];
    assert(t[0] == w[0]);
    assert(skip_separators(t, 0) == 0);
    assert(t.skip(0) =~= t);
    lemma_trim_newline(w);
    assert(skip_separators(w, 0) == 0);
    assert(w.skip(0) =~= w);
    lemma_trim_plain(w);
}

/// The first word of `cmd rest`, and what follows it.
proof fn lemma_first_word(cmd: Seq<char>, rest: Seq<char>)
    requires
        is_word(cmd),
    ensures
        token(cmd + seq![' '] + rest, false) == Some(cmd),
        after_token(cmd + seq![' '] + rest, false) == rest,
        token(cmd, false) == Some(cmd),
        after_token(cmd, false) == Seq::<char>::empty(),
{
    let t = cmd + seq![' '] + rest;
    assert(t[0] == cmd[0]);
    assert(skip_separators(t, 0) == 0);
    assert forall|j: int| 0 <= j < cmd.len() implies !is_separator(#[trigger] t[j]) by {
        assert(t[j] == cmd[j]);
    }
    lemma_word_end_at(t, 0, cmd.len() as int);
    assert(t.subrange(0, cmd.len() as int) =~= cmd);
    lemma_trim_plain(cmd);
    assert(t.skip(cmd.len() as int + 1) =~= rest);
    assert(skip_separators(cmd, 0) == 0);
    lemma_word_end_at(cmd, 0, cmd.len() as int);
    assert(cmd.subrange(0, cmd.len() as int) =~= cmd);
}

/// The line `0 cmd w`, read after its `0`.
proof fn lemma_command_line(cmd: Seq<char>, w: Seq<char>)
    requires
        is_word(cmd),
        is_plain_text(w),
    ensures
        token(after_token(seq!['0', ' '] + (cmd + seq![' '] + w + seq!['\n']), false), true) == Some(cmd + seq![' '] + w),
        token(cmd + seq![' '] + w, false) == Some(cmd),
        after_token(cmd + seq![' '] + w, false) == w,
        token(w, true) == Some(w),
{
    lemma_after_zero(cmd + seq![' '] + w + seq!['\n']);
    let x = cmd + seq![' '] + w;
    assert(x[0] == cmd[0]);
    assert(x.last() == w.last());
    lemma_glob_line(x);
    assert(x + seq!['\n'] =~= cmd + seq![' '] + w + seq!['\n']);
    lemma_first_word(cmd, w);
    lemma_glob_line(w);
}

/// The word after `BFC` in the line of a statement, or of a certification.
pub open spec fn bfc_word(b: BfcStatement) -> Seq<char> {
    match b {
        BfcStatement::Winding(Winding::Cw) => "CW"@,
        BfcStatement::Winding(Winding::Ccw) => "CCW"@,
        BfcStatement::Clip(None) => "CLIP"@,
        BfcStatement::Clip(Some(_)) => "CLIP CW"@,
        BfcStatement::NoClip => "NOCLIP"@,
        BfcStatement::InvertNext => "INVERTNEXT"@,
    }
}

/// Every back-face culling statement reads back as itself, but for a clip
/// with counter-clockwise winding, which is written as one with clockwise
/// winding.
pub proof fn lemma_bfc_statement_round_trip(b: BfcStatement)
    requires
        b != BfcStatement::Clip(Some(Winding::Ccw)),
    ensures
        spec_parse_line_0(after_token(bfc_statement_text(b), false)) == Ok::<SpecLine0, crate::error::SpecParseError>(
            SpecLine0::Meta(SpecMeta::Bfc(b)),
        ),
{
    reveal_strlit("BFC");
    reveal_strlit("CW");
    reveal_strlit("CCW");
    reveal_strlit("CLIP");
    reveal_strlit("CLIP CW");
    reveal_strlit("NOCLIP");
    reveal_strlit("INVERTNEXT");
    reveal_strlit("0 BFC CW\n");
    reveal_strlit("0 BFC CCW\n");
    reveal_strlit("0 BFC CLIP\n");
    reveal_strlit("0 BFC CLIP CW\n");
    reveal_strlit("0 BFC NOCLIP\n");
    reveal_strlit("0 BFC INVERTNEXT\n");
    reveal_strlit("NOCERTIFY");
    reveal_strlit("CERTIFY");
    reveal_strlit("CERTIFY CCW");
    reveal_strlit("CERTIFY CW");
    reveal_strlit("CW CLIP");
    reveal_strlit("CLIP CCW");
    reveal_strlit("CCW CLIP");
    let w = bfc_word(b);
    let cmd = "BFC"@;
    assert(is_word(cmd));
    assert(is_plain_text(w));
    assert(bfc_statement_text(b) =~= seq!['0', ' '] + (cmd + seq![' '] + w + seq!['\n']));
    lemma_command_line(cmd, w);
    assert(bfc_meaning(w) == Ok::<SpecLine0, crate::error::SpecParseError>(SpecLine0::Meta(SpecMeta::Bfc(b))));
}

/// The line `0 cmd`, read after its `0`.
proof fn lemma_bare_command_line(cmd: Seq<char>)
    requires
        is_word(cmd),
    ensures
        token(after_token(seq!['0', ' '] + (cmd + seq!['\n']), false), true) == Some(cmd),
        token(cmd, false) == Some(cmd),
        after_token(cmd, false) == Seq::<char>::empty(),
{
    lemma_after_zero(cmd + seq!['\n']);
    assert(cmd[0] == cmd[0]);
    assert(!is_separator(cmd[0]));
    lemma_glob_line(cmd);
    lemma_first_word(cmd, Seq::empty());
}

/// The line `0 cmd ` (a command followed by a space), read after its `0`.
proof fn lemma_command_line_with_space(cmd: Seq<char>)
    requires
        is_word(cmd),
    ensures
        token(after_token(seq!['0', ' '] + (cmd + seq![' '] + seq!['\n']), false), true) == Some(cmd),
{
    let x = cmd + seq![' '] + seq!['\n'];
    lemma_after_zero(x);
    assert(x[0] == cmd[0]);
    assert(skip_separators(x, 0) == 0);
    assert(x.skip(0) =~= x);
    assert(x.drop_last() =~= cmd + seq![' ']);
    assert((cmd + seq![' ']).drop_last() =~= cmd);
    assert((' ' as u32) == 0x20 && ('\n' as u32) == 0x0a);
    lemma_trim_plain(cmd);
    assert(trim_end_ws(cmd + seq![' ']) == trim_end_ws(cmd));
    assert(trim_end_ws(x) == trim_end_ws(cmd + seq![' ']));
}

/// Every back-face culling certification that is written reads back as
/// itself.
pub proof fn lemma_bfc_certification_round_trip(b: BfcCertification)
    requires
        bfc_certification_text(b) is Some,
    ensures
        spec_parse_line_0(after_token(bfc_certification_text(b)->Some_0, false)) == Ok::<SpecLine0, crate::error::SpecParseError>(
            SpecLine0::BfcCertification(b),
        ),
{
    reveal_strlit("BFC");
    reveal_strlit("0 BFC NOCERTIFY\n");
    reveal_strlit("0 BFC CERTIFY CCW\n");
    reveal_strlit("0 BFC CERTIFY CW\n");
    reveal_strlit("NOCERTIFY");
    reveal_strlit("CERTIFY");
    reveal_strlit("CERTIFY CCW");
    reveal_strlit("CERTIFY CW");
    let w = match b {
        BfcCertification::NoCertify => "NOCERTIFY"@,
        BfcCertification::Certify(Winding::Ccw) => "CERTIFY CCW"@,
        _ => "CERTIFY CW"@,
    };
    let cmd = "BFC"@;
    assert(is_word(cmd));
    assert(is_plain_text(w));
    assert(bfc_certification_text(b)->Some_0 =~= seq!['0', ' '] + (cmd + seq![' '] + w + seq!['\n']));
    lemma_command_line(cmd, w);
}

/// The meta commands without text (`STEP`, `CLEAR`, `PAUSE`, `SAVE`) read
/// back as themselves.
pub proof fn lemma_plain_meta_round_trip(m: SpecMeta)
    requires
        m is Step || m is Clear || m is Pause || m is Save,
    ensures
        spec_parse_line_0(after_token(meta_text(m), false)) == Ok::<SpecLine0, crate::error::SpecParseError>(SpecLine0::Meta(m)),
{
    reveal_strlit("STEP");
    reveal_strlit("CLEAR");
    reveal_strlit("PAUSE");
    reveal_strlit("SAVE");
    reveal_strlit("0 STEP\n");
    reveal_strlit("0 CLEAR\n");
    reveal_strlit("0 PAUSE\n");
    reveal_strlit("0 SAVE\n");
    reveal_strlit("BFC");
    reveal_strlit("Name:");
    reveal_strlit("Author:");
    reveal_strlit("FILE");
    reveal_strlit("WRITE");
    reveal_strlit("PRINT");
    let cmd = match m {
        SpecMeta::Step => "STEP"@,
        SpecMeta::Clear => "CLEAR"@,
        SpecMeta::Pause => "PAUSE"@,
        _ => "SAVE"@,
    };
    assert(is_word(cmd));
    assert(meta_text(m) =~= seq!['0', ' '] + (cmd + seq!['\n']));
    lemma_bare_command_line(cmd);
}

/// A header reads back as itself when its key is one word (possibly empty)
/// and its value is empty or does not start with a separator nor end in
/// white space.
pub proof fn lemma_header_round_trip(h: SpecHeader)
    requires
        forall|i: int| 0 <= i < h.0.len() ==> !is_separator(#[trigger] h.0[i]),
        h.0.len() > 0 ==> !is_white_space(h.0.last()),
        h.1.len() == 0 || is_plain_text(h.1),
    ensures
        spec_parse_line_0(after_token(header_text(h), false)) == Ok::<SpecLine0, crate::error::SpecParseError>(SpecLine0::Header(h)),
{
    reveal_strlit("0 !");
    reveal_strlit(" ");
    reveal_strlit("\n");
    let cmd = seq!['!'] + h.0;
    assert(cmd.last() == (if h.0.len() > 0 { h.0.last() } else { '!' }));
    assert forall|i: int| 0 <= i < cmd.len() implies !is_separator(#[trigger] cmd[i]) by {
        if i > 0 {
            assert(cmd[i] == h.0[i - 1]);
        }
    }
    assert(is_word(cmd));
    assert(cmd.drop_first() =~= h.0);
    if h.1.len() == 0 {
        assert(header_text(h) =~= seq!['0', ' '] + (cmd + seq![' '] + seq!['\n']));
        lemma_command_line_with_space(cmd);
        lemma_first_word(cmd, Seq::empty());
        assert(skip_separators(Seq::<char>::empty(), 0) == 0);
        assert(token(Seq::<char>::empty(), true) is None);
        assert(h.1 =~= Seq::<char>::empty());
        assert(SpecHeader(cmd.drop_first(), Seq::<char>::empty()) == h);
    } else {
        assert(header_text(h) =~= seq!['0', ' '] + (cmd + seq![' '] + h.1 + seq!['\n']));
        lemma_command_line(cmd, h.1);
        assert(SpecHeader(cmd.drop_first(), h.1) == h);
    }
}

/// The first word of `cmd` followed by the separator `sep`, and what
/// follows.
proof fn lemma_word_then(cmd: Seq<char>, sep: char, rest: Seq<char>)
    requires
        is_word(cmd),
        is_separator(sep),
    ensures
        token(cmd + seq![sep] + rest, false) == Some(cmd),
        after_token(cmd + seq![sep] + rest, false) == rest,
{
    let t = cmd + seq![sep] + rest;
    assert(t[0] == cmd[0]);
    assert(skip_separators(t, 0) == 0);
    assert forall|j: int| 0 <= j < cmd.len() implies !is_separator(#[trigger] t[j]) by {
        assert(t[j] == cmd[j]);
    }
    assert(t[cmd.len() as int] == sep);
    lemma_word_end_at(t, 0, cmd.len() as int);
    assert(t.subrange(0, cmd.len() as int) =~= cmd);
    lemma_trim_plain(cmd);
    assert(t.skip(cmd.len() as int + 1) =~= rest);
}

/// A real number as written is one word.
proof fn lemma_literal_is_word(t: Seq<char>)
    requires
        is_real_literal(t),
    ensures
        is_word(t),
{
    crate::number::lemma_real_literal_chars(t);
    assert forall|i: int| 0 <= i < t.len() implies !is_separator(#[trigger] t[i]) by {
        assert(is_literal_char(t[i]));
    }
    assert(is_literal_char(t.last()));
}

/// The decimal digits of a code are one word that reads back as the code.
proof fn lemma_code_word(code: u32)
    ensures
        is_word(decimal(code as nat)),
        u32_token_value(decimal(code as nat)) == Some(code as nat),
{
    let d = decimal(code as nat);
    crate::number::lemma_decimal_parses(code as nat);
    assert forall|i: int| 0 <= i < d.len() implies !is_separator(#[trigger] d[i]) by {
        assert(crate::number::digit_value(d[i]) < 10);
    }
    assert(crate::number::digit_value(d.last()) < 10);
    if d.len() >= 2 && d[0] == '0' {
        assert(d[1] != 'x') by {
            assert(crate::number::digit_value(d[1]) < 10);
        }
    }
}

/// Numbers written one after another, each after a space, followed by a
/// separator: they read back as themselves, and what follows the separator
/// is left.
proof fn lemma_read_numbers(ns: Seq<Seq<char>>, tail: Seq<char>)
    requires
        ns.len() > 0,
        forall|i: int| 0 <= i < ns.len() ==> is_real_literal(#[trigger] ns[i]),
        tail.len() > 0,
        is_separator(tail[0]),
    ensures
        read_decimals(ns[0] + numbers_text(ns.drop_first()) + tail, ns.len()) == (
            Ok::<Seq<Seq<char>>, crate::error::SpecParseError>(ns),
            tail.drop_first(),
        ),
    decreases ns.len(),
{
    let s = ns[0] + numbers_text(ns.drop_first()) + tail;
    assert(is_real_literal(ns[0]));
    lemma_literal_is_word(ns[0]);
    let rest = ns.drop_first();
    if rest.len() == 0 {
        assert(numbers_text(rest) =~= Seq::<char>::empty());
        assert(s =~= ns[0] + seq![tail[0]] + tail.drop_first());
        lemma_word_then(ns[0], tail[0], tail.drop_first());
        assert(spec_read_decimal(s) == Ok::<Seq<char>, crate::error::SpecParseError>(ns[0]));
        assert(after_token(s, false) == tail.drop_first());
        assert(read_decimals(tail.drop_first(), 0) == (Ok::<Seq<Seq<char>>, crate::error::SpecParseError>(Seq::empty()), tail.drop_first()));
        assert(seq![ns[0]] + Seq::<Seq<char>>::empty() =~= ns);
        assert(read_decimals(s, 1) == (Ok::<Seq<Seq<char>>, crate::error::SpecParseError>(seq![ns[0]] + Seq::<Seq<char>>::empty()), tail.drop_first()));
    } else {
        let after = rest[0] + numbers_text(rest.drop_first()) + tail;
        assert(numbers_text(rest) == seq![' '] + rest[0] + numbers_text(rest.drop_first())) by {
            reveal_strlit(" ");
        }
        assert(s =~= ns[0] + seq![' '] + after);
        lemma_word_then(ns[0], ' ', after);
        assert(spec_read_decimal(s) == Ok::<Seq<char>, crate::error::SpecParseError>(ns[0]));
        assert forall|i: int| 0 <= i < rest.len() implies is_real_literal(#[trigger] rest[i]) by {
            assert(rest[i] == ns[i + 1]);
        }
        lemma_read_numbers(rest, tail);
        assert(after_token(s, false) == after);
        assert(seq![ns[0]] + rest =~= ns);
        assert(read_decimals(s, ns.len()) == (Ok::<Seq<Seq<char>>, crate::error::SpecParseError>(seq![ns[0]] + rest), tail.drop_first()));
    }
}

/// The numbers of points, three each, in order.
pub open spec fn point_numbers(ps: Seq<SpecPoint>) -> Seq<Seq<char>>
    decreases ps.len(),
{
    if ps.len() == 0 {
        Seq::empty()
    } else {
        seq![ps[0].x, ps[0].y, ps[0].z] + point_numbers(ps.drop_first())
    }
}

proof fn lemma_point_numbers(ps: Seq<SpecPoint>)
    ensures
        points_text(ps) == numbers_text(point_numbers(ps)),
        point_numbers(ps).len() == 3 * ps.len(),
        forall|k: int| 0 <= k < ps.len() ==> point_at(point_numbers(ps), 3 * k) == #[trigger] ps[k],
    decreases ps.len(),
{
    reveal_strlit(" ");
    if ps.len() > 0 {
        let rest = ps.drop_first();
        lemma_point_numbers(rest);
        let ns = point_numbers(ps);
        let three = seq![ps[0].x, ps[0].y, ps[0].z];
        assert(ns == three + point_numbers(rest));
        assert(ns.drop_first().drop_first().drop_first() =~= point_numbers(rest));
        assert(ns[0] == ps[0].x && ns[1] == ps[0].y && ns[2] == ps[0].z);
        assert(ns.drop_first()[0] == ps[0].y);
        assert(ns.drop_first().drop_first()[0] == ps[0].z);
        assert(numbers_text(ns) =~= " "@ + ps[0].x + numbers_text(ns.drop_first()));
        assert(numbers_text(ns.drop_first()) =~= " "@ + ps[0].y + numbers_text(ns.drop_first().drop_first()));
        assert(numbers_text(ns.drop_first().drop_first()) =~= " "@ + ps[0].z + numbers_text(point_numbers(rest)));
        assert(points_text(ps) =~= " "@ + point_text(ps[0]) + points_text(rest));
        assert(points_text(ps) =~= numbers_text(ns));
        assert forall|k: int| 0 <= k < ps.len() implies point_at(ns, 3 * k) == #[trigger] ps[k] by {
            if k > 0 {
                assert(ps[k] == rest[k - 1]);
                assert(point_at(point_numbers(rest), 3 * (k - 1)) == rest[k - 1]);
                assert(ns[3 * k] == point_numbers(rest)[3 * (k - 1)]);
                assert(ns[3 * k + 1] == point_numbers(rest)[3 * (k - 1) + 1]);
                assert(ns[3 * k + 2] == point_numbers(rest)[3 * (k - 1) + 2]);
            }
        }
    } else {
        assert(points_text(ps) =~= numbers_text(point_numbers(ps)));
    }
}

/// The colour that `c` stands for is the one that its code resolves to in
/// `colors`.
pub open spec fn resolves_to_itself(c: crate::color::SpecColorReference, colors: Map<u32, SpecColor>) -> bool {
    resolved(reference_code(c), colors) == c
}

/// A shape (an edge, a face, an optional edge) reads back from its line, as
/// a shape of as many points, when its colour is the one its code resolves
/// to: its colour and points are read back as written.
pub proof fn lemma_shape_round_trip(colors: Map<u32, SpecColor>, shape: SpecShape)
    requires
        shape.points.len() > 0,
        forall|k: int| 0 <= k < shape.points.len() ==> is_real_literal((#[trigger] shape.points[k]).x)
            && is_real_literal(shape.points[k].y) && is_real_literal(shape.points[k].z),
        resolves_to_itself(shape.color, colors),
    ensures
        spec_parse_shape(colors, after_token(shape_text(shape), false), shape.points.len()) == Ok::<SpecShape, crate::error::SpecParseError>(shape),
{
    reveal_strlit("2 ");
    reveal_strlit("\n");
    let code = reference_code(shape.color);
    let c = decimal(code as nat);
    lemma_code_word(code);
    lemma_point_numbers(shape.points);
    let ns = point_numbers(shape.points);
    let x = c + points_text(shape.points) + seq!['\n'];
    assert(shape_text(shape) =~= seq!['2', ' '] + x);
    lemma_after_zero_like('2', x);
    assert(ns.len() > 0);
    assert(numbers_text(ns) == seq![' '] + ns[0] + numbers_text(ns.drop_first())) by {
        reveal_strlit(" ");
    }
    let after = ns[0] + numbers_text(ns.drop_first()) + seq!['\n'];
    assert(x =~= c + seq![' '] + after);
    lemma_word_then(c, ' ', after);
    assert(spec_read_u32(x) == Ok::<u32, crate::error::SpecParseError>(code));
    assert forall|i: int| 0 <= i < ns.len() implies is_real_literal(#[trigger] ns[i]) by {
        let k = i / 3;
        assert(0 <= k < shape.points.len());
        assert(point_at(ns, 3 * k) == shape.points[k]);
        assert(i == 3 * k || i == 3 * k + 1 || i == 3 * k + 2);
    }
    lemma_read_numbers(ns, seq!['\n']);
    assert(read_decimals(after, 3 * shape.points.len()).0 == Ok::<Seq<Seq<char>>, crate::error::SpecParseError>(ns));
    assert(Seq::new(shape.points.len(), |k: int| point_at(ns, 3 * k)) =~= shape.points);
}

/// A part reference reads back from its line when its colour is the one its
/// code resolves to and its name, as written, is a name that reads back
/// (no leading separator, no trailing white space) and is canonical as
/// written.
pub proof fn lemma_part_reference_round_trip(colors: Map<u32, SpecColor>, r: SpecPartReference)
    requires
        r.matrix.len() == 12,
        forall|i: int| 0 <= i < r.matrix.len() ==> is_real_literal(#[trigger] r.matrix[i]),
        resolves_to_itself(r.color, colors),
        is_plain_text(r.name.original),
        r.name == crate::alias_of(r.name.original),
    ensures
        spec_parse_line_1(colors, after_token(part_reference_text(r), false)) == Ok::<SpecPartReference, crate::error::SpecParseError>(r),
{
    reveal_strlit("1 ");
    reveal_strlit(" ");
    reveal_strlit("\n");
    let code = reference_code(r.color);
    let c = decimal(code as nat);
    lemma_code_word(code);
    let ns = r.matrix;
    let name = r.name.original;
    let tail = seq![' '] + name + seq!['\n'];
    let x = c + numbers_text(ns) + tail;
    assert(part_reference_text(r) =~= seq!['1', ' '] + x);
    lemma_after_zero_like('1', x);
    assert(numbers_text(ns) == seq![' '] + ns[0] + numbers_text(ns.drop_first()));
    let after = ns[0] + numbers_text(ns.drop_first()) + tail;
    assert(x =~= c + seq![' '] + after);
    lemma_word_then(c, ' ', after);
    lemma_read_numbers(ns, tail);
    assert(tail.drop_first() =~= name + seq!['\n']);
    lemma_glob_line(name);
}

/// The characters after the first character `k` of a line `k x`.
proof fn lemma_after_zero_like(k: char, x: Seq<char>)
    requires
        !is_separator(k),
    ensures
        after_token(seq![k, ' '] + x, false) == x,
{
    let s = seq![k, ' '] + x;
    assert(s[0] == k && s[1] == ' ');
    assert(skip_separators(s, 0) == 0);
    lemma_word_end_at(s, 0, 1);
    assert(s.skip(2) =~= x);
}

/// A `WRITE` or `PRINT` command reads back as itself when its text is on one
/// line and does not start with a separator nor end in white space.
pub proof fn lemma_message_round_trip(m: SpecMeta)
    requires
        m matches SpecMeta::Write(c) ==> is_plain_text(c) && forall|i: int| 0 <= i < c.len() ==> c[i] != '\n',
        m matches SpecMeta::Print(c) ==> is_plain_text(c) && forall|i: int| 0 <= i < c.len() ==> c[i] != '\n',
        m is Write || m is Print,
    ensures
        spec_parse_line_0(after_token(meta_text(m), false)) == Ok::<SpecLine0, crate::error::SpecParseError>(SpecLine0::Meta(m)),
{
    reveal_strlit("0 WRITE ");
    reveal_strlit("0 PRINT ");
    reveal_strlit("WRITE");
    reveal_strlit("PRINT");
    reveal_strlit("BFC");
    reveal_strlit("Name:");
    reveal_strlit("Author:");
    reveal_strlit("FILE");
    reveal_strlit("STEP");
    let (cmd, c) = match m {
        SpecMeta::Write(c) => ("WRITE"@, c),
        SpecMeta::Print(c) => ("PRINT"@, c),
        _ => (Seq::empty(), Seq::empty()),
    };
    assert(is_word(cmd));
    let prefix = seq!['0', ' '] + cmd + seq![' '];
    assert(prefix =~= (if m is Write { "0 WRITE "@ } else { "0 PRINT "@ }));
    crate::number::lemma_first_of(c, '\n', '\n', 0);
    assert(crate::number::first_of(c, '\n', '\n', 0) == c.len());
    assert(crate::writer::text_lines(c) == seq![c]);
    let lines = seq![c];
    assert(crate::writer::prefixed_lines(prefix, lines.drop_first()) == Seq::<char>::empty());
    assert(meta_text(m) =~= seq!['0', ' '] + (cmd + seq![' '] + c + seq!['\n']));
    lemma_command_line(cmd, c);
}

} // verus!
