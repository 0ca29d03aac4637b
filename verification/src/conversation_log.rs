//! What the conversation log gives back of the turns written to it.
use vstd::prelude::*;
use crate::memory::{
    agent_marker, conversation_entry, conversation_header, conversation_history, finish_scan,
    is_skipped_line, scan_line, scan_lines, user_marker, Scan, ScanState,
};
use crate::text::{is_ws, line_split, lines, starts_with, strip_cr, trim, trim_end, trim_start};

verus! {

/// One turn as it is written to the log: when, with which model, what the
/// user asked and what the agent answered.
pub struct LoggedTurn {
    pub timestamp: Seq<char>,
    pub model: Seq<char>,
    pub user: Seq<char>,
    pub agent: Seq<char>,
}

/// The log after the turns are written in order to a log that did not exist.
pub open spec fn conversation_log(turns: Seq<LoggedTurn>) -> Seq<char>
    decreases turns.len(),
{
    if turns.len() == 0 {
        conversation_header()
    } else {
        let t = turns.last();
        conversation_log(turns.drop_last()) + conversation_entry(t.timestamp, t.model, t.user, t.agent)
    }
}

/// The user and agent texts of the turns, trimmed, alternating.
pub open spec fn turn_texts(turns: Seq<LoggedTurn>) -> Seq<Seq<char>>
    decreases turns.len(),
{
    if turns.len() == 0 {
        Seq::empty()
    } else {
        turn_texts(turns.drop_last()).push(trim(turns.last().user)).push(trim(turns.last().agent))
    }
}

/// A turn the log gives back: its time and model each on one line, and each
/// of its two texts readable (see `readable_text`).
pub open spec fn plain_turn(t: LoggedTurn) -> bool {
    &&& !t.timestamp.contains('\n')
    &&& !t.model.contains('\n')
    &&& readable_text(t.user)
    &&& readable_text(t.agent)
}

/// A text the log gives back trimmed: a single line, whatever it holds, or
/// a text of several lines that the log keeps (see `kept_text`).
pub open spec fn readable_text(x: Seq<char>) -> bool {
    !x.contains('\n') || kept_text(x)
}

proof fn lemma_split_no_newline(s: Seq<char>, l: Seq<char>)
    requires
        !l.contains('\n'),
    ensures
        line_split(s + l) == (line_split(s).0, line_split(s).1 + l),
    decreases l.len(),
{
    if l.len() == 0 {
        assert(s + l =~= s);
        assert(line_split(s).1 + l =~= line_split(s).1);
    } else {
        let l0 = l.drop_last();
        assert(!l0.contains('\n')) by {
            if l0.contains('\n') {
                let i = choose|i: int| 0 <= i < l0.len() && l0[i] == '\n';
                assert(l[i] == '\n');
            }
        }
        lemma_split_no_newline(s, l0);
        assert((s + l).drop_last() =~= s + l0);
        assert((s + l).last() == l.last());
        assert(l.last() != '\n') by {
            assert(l[l.len() - 1] == l.last());
        }
        assert(line_split(s).1 + l0 + seq![l.last()] =~= line_split(s).1 + l);
    }
}

proof fn lemma_split_line(s: Seq<char>, l: Seq<char>)
    requires
        !l.contains('\n'),
        line_split(s).1.len() == 0,
    ensures
        line_split(s + l + "\n"@) == (line_split(s).0.push(strip_cr(l)), Seq::<char>::empty()),
{
    reveal_strlit("\n");
    lemma_split_no_newline(s, l);
    let t = s + l;
    assert((t + "\n"@).drop_last() =~= t);
    assert((t + "\n"@).last() == '\n');
    assert(line_split(s).1 + l =~= l);
}

/// Each line of a text with the line's end.
pub open spec fn terminated(ls: Seq<Seq<char>>) -> Seq<char>
    decreases ls.len(),
{
    if ls.len() == 0 {
        Seq::empty()
    } else {
        terminated(ls.drop_last()) + ls.last() + "\n"@
    }
}

/// No carriage return stands right before a line feed.
pub open spec fn no_crlf(x: Seq<char>) -> bool {
    forall|i: int| 0 < i < x.len() && #[trigger] x[i] == '\n' ==> x[i - 1] != '\r'
}

proof fn lemma_split_concat(s: Seq<char>, y: Seq<char>)
    requires
        line_split(s).1.len() == 0,
    ensures
        line_split(s + y) == (line_split(s).0 + line_split(y).0, line_split(y).1),
    decreases y.len(),
{
    if y.len() == 0 {
        assert(s + y =~= s);
        assert(line_split(s).0 + line_split(y).0 =~= line_split(s).0);
    } else {
        let y0 = y.drop_last();
        lemma_split_concat(s, y0);
        assert((s + y).drop_last() =~= s + y0);
        assert((s + y).last() == y.last());
        let (d0, c0) = line_split(y0);
        if y.last() == '\n' {
            assert(line_split(s).0 + d0.push(strip_cr(c0)) =~= (line_split(s).0 + d0).push(strip_cr(c0)));
        }
    }
}

proof fn lemma_split_prefix(m: Seq<char>, y: Seq<char>)
    requires
        !m.contains('\n'),
        m.len() > 0,
        m.last() != '\r',
    ensures
        line_split(m + y) == if line_split(y).0.len() == 0 {
            (line_split(y).0, m + line_split(y).1)
        } else {
            (line_split(y).0.update(0, m + line_split(y).0[0]), line_split(y).1)
        },
    decreases y.len(),
{
    if y.len() == 0 {
        assert(m + y =~= m);
        lemma_split_no_newline(Seq::<char>::empty(), m);
        assert(Seq::<char>::empty() + m =~= m);
        assert(Seq::<char>::empty() + m =~= m + line_split(y).1);
    } else {
        let y0 = y.drop_last();
        lemma_split_prefix(m, y0);
        assert((m + y).drop_last() =~= m + y0);
        assert((m + y).last() == y.last());
        let (d0, c0) = line_split(y0);
        if y.last() == '\n' {
            if d0.len() == 0 {
                if c0.len() > 0 {
                    assert((m + c0).drop_last() =~= m + c0.drop_last());
                    assert(strip_cr(m + c0) =~= m + strip_cr(c0));
                } else {
                    assert(m + c0 =~= m);
                    assert(strip_cr(m + c0) =~= m + strip_cr(c0));
                }
                assert(d0.push(strip_cr(c0)).update(0, m + strip_cr(c0)) =~= Seq::<Seq<char>>::empty().push(strip_cr(m + c0)));
            } else {
                assert(d0.update(0, m + d0[0]).push(strip_cr(c0)) =~= d0.push(strip_cr(c0)).update(0, m + d0.push(strip_cr(c0))[0]));
            }
        } else {
            assert(m + c0.push(y.last()) =~= (m + c0).push(y.last()));
        }
    }
}

proof fn lemma_split_rejoin(y: Seq<char>)
    requires
        no_crlf(y),
    ensures
        y == terminated(line_split(y).0) + line_split(y).1,
    decreases y.len(),
{
    if y.len() == 0 {
        assert(terminated(Seq::<Seq<char>>::empty()) + Seq::<char>::empty() =~= y);
    } else {
        let y0 = y.drop_last();
        assert(no_crlf(y0)) by {
            assert forall|i: int| 0 < i < y0.len() && #[trigger] y0[i] == '\n' implies y0[i - 1] != '\r' by {
                assert(y[i] == y0[i]);
                assert(y[i - 1] == y0[i - 1]);
            }
        }
        lemma_split_rejoin(y0);
        let (d0, c0) = line_split(y0);
        reveal_strlit("\n");
        if y.last() == '\n' {
            if c0.len() > 0 {
                assert(y0 =~= terminated(d0) + c0);
                assert(c0.last() == y0.last());
                assert(y[y.len() - 1] == '\n');
                assert(y0.last() == y[y.len() - 2]);
                assert(strip_cr(c0) == c0);
            }
            assert(strip_cr(c0) == c0);
            let d = d0.push(c0);
            assert(d.drop_last() =~= d0);
            assert(terminated(d) == terminated(d0) + c0 + "\n"@);
            assert(y =~= terminated(d) + Seq::<char>::empty());
        } else {
            assert(y =~= y0.push(y.last()));
            assert(y0 == terminated(d0) + c0);
            assert((terminated(d0) + c0).push(y.last()) =~= terminated(d0) + c0.push(y.last()));
        }
    }
}

/// A line the log reads as part of the text before it: trimmed, it is not
/// empty, no separator, stamp or heading, and opens no turn.
pub open spec fn ordinary_line(l: Seq<char>) -> bool {
    &&& !is_skipped_line(trim(l))
    &&& !starts_with(trim(l), user_marker())
    &&& !starts_with(trim(l), agent_marker())
}

/// A text the log gives back as it was written: no surrounding whitespace,
/// no `\r\n`, no whitespace ending its first line, and every further line
/// ordinary.
pub open spec fn kept_text(x: Seq<char>) -> bool {
    &&& trim(x) == x
    &&& no_crlf(x)
    &&& x.len() > 0 ==> {
        &&& lines(x)[0].len() > 0
        &&& !is_ws(lines(x)[0].last())
        &&& forall|i: int| 1 <= i < lines(x).len() ==> ordinary_line(#[trigger] lines(x)[i])
    }
}

/// The lines of a marker followed by a text.
pub open spec fn marker_text_lines(mp: Seq<char>, x: Seq<char>) -> Seq<Seq<char>> {
    if x.len() == 0 {
        seq![mp]
    } else {
        lines(x).update(0, mp + lines(x)[0])
    }
}

/// The lines of a marker followed by a readable text.
pub open spec fn piece_lines(mp: Seq<char>, x: Seq<char>) -> Seq<Seq<char>> {
    if !x.contains('\n') {
        seq![strip_cr(mp + x)]
    } else {
        marker_text_lines(mp, x)
    }
}

proof fn lemma_split_newline(y: Seq<char>)
    ensures
        line_split(y + "\n"@) == (line_split(y).0.push(strip_cr(line_split(y).1)), Seq::<char>::empty()),
{
    reveal_strlit("\n");
    assert((y + "\n"@).drop_last() =~= y);
    assert((y + "\n"@).last() == '\n');
}

proof fn lemma_piece_split(s: Seq<char>, mp: Seq<char>, x: Seq<char>)
    requires
        line_split(s).1.len() == 0,
        !mp.contains('\n'),
        mp.len() > 0,
        mp.last() == ' ',
        readable_text(x),
    ensures
        line_split(s + (mp + x + "\n"@)) == (line_split(s).0 + piece_lines(mp, x), Seq::<char>::empty()),
{
    if !x.contains('\n') {
        lemma_no_newline_concat(mp, x);
        lemma_split_line(s, mp + x);
        assert(s + (mp + x + "\n"@) =~= s + (mp + x) + "\n"@);
        assert(line_split(s).0.push(strip_cr(mp + x)) =~= line_split(s).0 + seq![strip_cr(mp + x)]);
    } else {
        lemma_kept_piece_split(s, mp, x);
    }
}

proof fn lemma_kept_piece_split(s: Seq<char>, mp: Seq<char>, x: Seq<char>)
    requires
        line_split(s).1.len() == 0,
        !mp.contains('\n'),
        mp.len() > 0,
        mp.last() == ' ',
        trim(x) == x,
    ensures
        line_split(s + (mp + x + "\n"@)) == (line_split(s).0 + marker_text_lines(mp, x), Seq::<char>::empty()),
{
    lemma_split_concat(s, mp + x + "\n"@);
    let y = mp + x;
    lemma_split_newline(y);
    if x.len() == 0 {
        assert(y =~= mp);
        lemma_split_no_newline(Seq::<char>::empty(), mp);
        assert(Seq::<char>::empty() + mp =~= mp);
        assert(strip_cr(mp) == mp);
        assert(line_split(y + "\n"@).0 =~= seq![mp]);
    } else {
        lemma_trimmed_ends(x);
        lemma_split_prefix(mp, x);
        let (d, c) = line_split(x);
        assert(x.drop_last() + seq![x.last()] =~= x);
        assert(c.len() > 0 && c.last() == x.last());
        assert(strip_cr(c) == c);
        assert(lines(x) == d.push(c));
        if d.len() == 0 {
            assert((mp + c).last() == c.last());
            assert(strip_cr(mp + c) == mp + c);
            assert(line_split(y + "\n"@).0 =~= lines(x).update(0, mp + lines(x)[0]));
        } else {
            assert(line_split(y + "\n"@).0 =~= lines(x).update(0, mp + lines(x)[0]));
        }
    }
}

proof fn lemma_trim_end_shape(x: Seq<char>)
    ensures
        trim_end(x).len() <= x.len(),
        trim_end(x) =~= x.subrange(0, trim_end(x).len() as int),
        trim_end(x).len() == 0 || !is_ws(trim_end(x).last()),
        all_ws(x.subrange(trim_end(x).len() as int, x.len() as int)),
    decreases x.len(),
{
    if x.len() > 0 && is_ws(x.last()) {
        let y = x.drop_last();
        lemma_trim_end_shape(y);
        let k = trim_end(x).len() as int;
        assert forall|i: int| 0 <= i < x.subrange(k, x.len() as int).len() implies is_ws(#[trigger] x.subrange(k, x.len() as int)[i]) by {
            if k + i < y.len() {
                assert(y.subrange(k, y.len() as int)[i] == x[k + i]);
            } else {
                assert(x[k + i] == x.last());
            }
        }
    }
}

proof fn lemma_trim_start_shape(x: Seq<char>)
    ensures
        trim_start(x).len() == 0 || !is_ws(trim_start(x)[0]),
    decreases x.len(),
{
    if x.len() > 0 && is_ws(x[0]) {
        lemma_trim_start_shape(x.drop_first());
    }
}

/// A non-empty text without surrounding whitespace begins and ends with
/// characters that are not whitespace.
proof fn lemma_trimmed_ends(u: Seq<char>)
    requires
        trim(u) == u,
        u.len() > 0,
    ensures
        !is_ws(u[0]),
        !is_ws(u.last()),
{
    let y = trim_start(u);
    lemma_trim_start_shape(u);
    lemma_trim_end_shape(y);
    assert(u[0] == y[0]);
}

/// A text that begins and ends with characters that are not whitespace is
/// its own trimmed form.
proof fn lemma_trim_fixed(x: Seq<char>)
    requires
        x.len() > 0,
        !is_ws(x[0]),
        !is_ws(x.last()),
    ensures
        trim(x) == x,
{
    assert(trim_start(x) == x);
    assert(trim_end(x) == x);
}

/// Every character of the text is whitespace.
pub open spec fn all_ws(c: Seq<char>) -> bool {
    forall|i: int| 0 <= i < c.len() ==> is_ws(#[trigger] c[i])
}

proof fn lemma_all_ws_trims_away(c: Seq<char>)
    requires
        all_ws(c),
    ensures
        trim_start(c).len() == 0,
        trim_end(c).len() == 0,
    decreases c.len(),
{
    if c.len() > 0 {
        assert(is_ws(c[0]));
        assert(is_ws(c[c.len() - 1]));
        assert(all_ws(c.drop_first())) by {
            assert forall|i: int| 0 <= i < c.drop_first().len() implies is_ws(#[trigger] c.drop_first()[i]) by {
                assert(c.drop_first()[i] == c[i + 1]);
            }
        }
        assert(all_ws(c.drop_last())) by {
            assert forall|i: int| 0 <= i < c.drop_last().len() implies is_ws(#[trigger] c.drop_last()[i]) by {
                assert(c.drop_last()[i] == c[i]);
            }
        }
        lemma_all_ws_trims_away(c.drop_first());
        lemma_all_ws_trims_away(c.drop_last());
    }
}

proof fn lemma_trim_start_concat(b: Seq<char>, c: Seq<char>)
    ensures
        trim_start(b + c) == if trim_start(b).len() > 0 { trim_start(b) + c } else { trim_start(c) },
    decreases b.len(),
{
    if b.len() == 0 {
        assert(b + c =~= c);
    } else if is_ws(b[0]) {
        assert((b + c)[0] == b[0]);
        assert((b + c).drop_first() =~= b.drop_first() + c);
        lemma_trim_start_concat(b.drop_first(), c);
    } else {
        assert((b + c)[0] == b[0]);
    }
}

proof fn lemma_trim_end_concat(b: Seq<char>, c: Seq<char>)
    ensures
        trim_end(b + c) == if trim_end(c).len() > 0 { b + trim_end(c) } else { trim_end(b) },
    decreases c.len(),
{
    if c.len() == 0 {
        assert(b + c =~= b);
    } else if is_ws(c.last()) {
        assert((b + c).last() == c.last());
        assert((b + c).drop_last() =~= b + c.drop_last());
        lemma_trim_end_concat(b, c.drop_last());
    } else {
        assert((b + c).last() == c.last());
    }
}

/// Whitespace after a text does not change the trimmed text.
proof fn lemma_trim_ws_after(b: Seq<char>, c: Seq<char>)
    requires
        all_ws(c),
    ensures
        trim(b + c) == trim(b),
{
    lemma_all_ws_trims_away(c);
    lemma_trim_start_concat(b, c);
    if trim_start(b).len() > 0 {
        lemma_trim_end_concat(trim_start(b), c);
    }
}

/// Whitespace before a text does not change the trimmed text.
proof fn lemma_trim_ws_before(a: Seq<char>, b: Seq<char>)
    requires
        all_ws(a),
    ensures
        trim(a + b) == trim(b),
{
    lemma_all_ws_trims_away(a);
    lemma_trim_start_concat(a, b);
}

/// A text trims as its part before trailing whitespace does.
proof fn lemma_trim_of_trim_end(w: Seq<char>)
    ensures
        trim(trim_end(w)) == trim(w),
{
    lemma_trim_end_shape(w);
    let k = trim_end(w).len() as int;
    assert(w =~= trim_end(w) + w.subrange(k, w.len() as int));
    lemma_trim_ws_after(trim_end(w), w.subrange(k, w.len() as int));
}

/// The line of a marker and a one-line text, as the log reads it: it opens
/// with the marker, and what follows the marker trims to the text, trimmed.
proof fn lemma_single_marker_line(m: Seq<char>, x: Seq<char>)
    requires
        m.len() >= 3,
        m[0] == '*',
        m[1] == '*',
        !is_ws(m.last()),
        !x.contains('\n'),
    ensures
        ({
            let t = trim(strip_cr(m + " "@ + x));
            &&& starts_with(t, m)
            &&& t[2] == m[2]
            &&& trim(t.subrange(m.len() as int, t.len() as int).push('\n')) == trim(x)
        }),
{
    reveal_strlit(" ");
    let v = " "@ + x;
    let w = strip_cr(v);
    assert(m + " "@ + x =~= m + v);
    assert((m + v).last() == v.last());
    if v.last() == '\r' {
        assert((m + v).drop_last() =~= m + v.drop_last());
    }
    assert(strip_cr(m + v) =~= m + w);
    let y = m + w;
    assert(y[0] == '*');
    assert(trim_start(y) == y);
    lemma_trim_end_concat(m, w);
    assert(trim_end(m) == m);
    let t = trim(y);
    assert(t =~= m + trim_end(w));
    assert(t.subrange(0, m.len() as int) =~= m);
    let r = t.subrange(m.len() as int, t.len() as int);
    assert(r =~= trim_end(w));
    assert(r.push('\n') =~= r + seq!['\n']);
    assert(all_ws(seq!['\n']));
    lemma_trim_ws_after(r, seq!['\n']);
    lemma_trim_of_trim_end(w);
    // w is a space before the text, without a carriage return that ends it
    assert(all_ws(seq![' ']));
    if x.len() == 0 {
        assert(w =~= seq![' ']);
        lemma_all_ws_trims_away(seq![' ']);
        assert(trim(x) =~= Seq::<char>::empty());
    } else {
        let xs = strip_cr(x);
        assert(v.last() == x.last());
        if x.last() == '\r' {
            assert(v.drop_last() =~= seq![' '] + x.drop_last());
        }
        assert(w =~= seq![' '] + xs);
        lemma_trim_ws_before(seq![' '], xs);
        if x.last() == '\r' {
            assert(x =~= xs + seq!['\r']);
            assert(all_ws(seq!['\r']));
            lemma_trim_ws_after(xs, seq!['\r']);
        }
    }
}

/// The text a marker line leaves for its turn: what follows the marker, with
/// the line's end.
pub open spec fn rest_text(x: Seq<char>) -> Seq<char> {
    (if x.len() == 0 { Seq::empty() } else { seq![' '] + x }).push('\n')
}

proof fn lemma_trim_rest(x: Seq<char>)
    requires
        trim(x) == x,
    ensures
        trim(rest_text(x)) == x,
{
    let r = rest_text(x);
    if x.len() == 0 {
        assert(r =~= seq!['\n']);
        assert(r.drop_first() =~= Seq::<char>::empty());
        assert(trim_start(r) == trim_start(Seq::<char>::empty()));
        assert(trim_start(r) =~= Seq::<char>::empty());
        assert(trim_end(Seq::<char>::empty()) =~= Seq::<char>::empty());
    } else {
        lemma_trimmed_ends(x);
        let y = x.push('\n');
        assert(r.drop_first() =~= y);
        assert(y[0] == x[0]);
        assert(trim_start(y) == y);
        assert(trim_start(r) == y);
        assert(y.drop_last() =~= x);
        assert(trim_end(y) == trim_end(x));
        assert(trim_end(x) == x);
    }
}

/// The line of a turn's text: the marker, a space, and the text.
pub open spec fn marker_line(m: Seq<char>, x: Seq<char>) -> Seq<char> {
    m + " "@ + x
}

proof fn lemma_marker_line(m: Seq<char>, x: Seq<char>)
    requires
        m.len() >= 3,
        m[0] == '*',
        m[1] == '*',
        !is_ws(m.last()),
        x.len() == 0 || !is_ws(x.last()),
    ensures
        starts_with(trim(marker_line(m, x)), m),
        trim(marker_line(m, x))[2] == m[2],
        trim(marker_line(m, x)).subrange(m.len() as int, trim(marker_line(m, x)).len() as int).push('\n') == rest_text(x),
{
    reveal_strlit(" ");
    let l = marker_line(m, x);
    let t = trim(l);
    assert(l[0] == '*');
    if x.len() == 0 {
        assert(l =~= m.push(' '));
        assert(trim_start(l) == l);
        assert(l.drop_last() =~= m);
        assert(trim_end(l) == trim_end(m));
        assert(trim_end(m) == m);
        assert(t == m);
        assert(t.subrange(0, m.len() as int) =~= m);
        assert(t.subrange(m.len() as int, t.len() as int).push('\n') =~= rest_text(x));
    } else {
        assert(l.last() == x.last());
        lemma_trim_fixed(l);
        assert(t.subrange(0, m.len() as int) =~= m);
        assert(t.subrange(m.len() as int, t.len() as int).push('\n') =~= rest_text(x));
    }
}

proof fn lemma_no_newline_concat(a: Seq<char>, b: Seq<char>)
    requires
        !a.contains('\n'),
        !b.contains('\n'),
    ensures
        !(a + b).contains('\n'),
{
    if (a + b).contains('\n') {
        let i = choose|i: int| 0 <= i < (a + b).len() && (a + b)[i] == '\n';
        if i < a.len() {
            assert(a[i] == '\n');
        } else {
            assert(b[i - a.len()] == '\n');
        }
    }
}

/// The lines of a new log's heading.
pub open spec fn header_lines() -> Seq<Seq<char>> {
    seq!["# Mullande Conversation Log"@, ""@, "This file stores all conversations from mullande run and mullande chat."@]
}

proof fn lemma_header_split()
    ensures
        line_split(conversation_header()) == (header_lines(), Seq::<char>::empty()),
{
    let h1 = "# Mullande Conversation Log"@;
    let h2 = "This file stores all conversations from mullande run and mullande chat."@;
    reveal_strlit("# Mullande Conversation Log");
    reveal_strlit("This file stores all conversations from mullande run and mullande chat.");
    reveal_strlit("");
    reveal_strlit("\n");
    reveal_strlit("# Mullande Conversation Log\n\nThis file stores all conversations from mullande run and mullande chat.\n");
    let e = Seq::<char>::empty();
    assert(line_split(e) == (Seq::<Seq<char>>::empty(), e));
    assert(!h1.contains('\n'));
    assert(!h2.contains('\n'));
    assert(!""@.contains('\n'));
    let p1 = e + h1 + "\n"@;
    lemma_split_line(e, h1);
    let p2 = p1 + ""@ + "\n"@;
    lemma_split_line(p1, ""@);
    let p3 = p2 + h2 + "\n"@;
    lemma_split_line(p2, h2);
    assert(strip_cr(h1) == h1);
    assert(strip_cr(""@) == ""@);
    assert(strip_cr(h2) == h2);
    assert(conversation_header() =~= p3);
    assert(line_split(p3).0 =~= header_lines());
}

/// The line that opens a turn: its time and model.
pub open spec fn stamp_line(t: LoggedTurn) -> Seq<char> {
    "**["@ + t.timestamp + "]** Model: `"@ + t.model + "`"@
}

/// The lines of a turn's entry.
pub open spec fn entry_lines(t: LoggedTurn) -> Seq<Seq<char>> {
    seq![""@, ""@, "---"@, ""@, stamp_line(t), ""@] + piece_lines("**User:** "@, t.user) + seq![""@]
        + piece_lines("**Agent:** "@, t.agent)
}

proof fn lemma_entry_split(s: Seq<char>, t: LoggedTurn)
    requires
        line_split(s).1.len() == 0,
        plain_turn(t),
    ensures
        line_split(s + conversation_entry(t.timestamp, t.model, t.user, t.agent)) == (line_split(s).0 + entry_lines(t), Seq::<char>::empty()),
{
    reveal_strlit("");
    reveal_strlit("\n");
    reveal_strlit("---");
    reveal_strlit("**[");
    reveal_strlit("]** Model: `");
    reveal_strlit("`");
    reveal_strlit("**User:** ");
    reveal_strlit("**Agent:** ");
    reveal_strlit("\n\n---\n\n**[");
    reveal_strlit("`\n\n**User:** ");
    reveal_strlit("\n\n**Agent:** ");
    let e = ""@;
    let nl = "\n"@;
    assert(!e.contains('\n'));
    assert(!"---"@.contains('\n'));
    assert(!"**["@.contains('\n'));
    assert(!"]** Model: `"@.contains('\n'));
    assert(!"`"@.contains('\n'));
    assert(!"**User:** "@.contains('\n'));
    assert(!"**Agent:** "@.contains('\n'));
    let st = stamp_line(t);
    lemma_no_newline_concat("**["@, t.timestamp);
    lemma_no_newline_concat("**["@ + t.timestamp, "]** Model: `"@);
    lemma_no_newline_concat("**["@ + t.timestamp + "]** Model: `"@, t.model);
    lemma_no_newline_concat("**["@ + t.timestamp + "]** Model: `"@ + t.model, "`"@);
    assert(st.last() == '`');
    assert(strip_cr(e) == e);
    assert(strip_cr("---"@) == "---"@);
    assert(strip_cr(st) == st);
    let p1 = s + e + nl;
    lemma_split_line(s, e);
    let p2 = p1 + e + nl;
    lemma_split_line(p1, e);
    let p3 = p2 + "---"@ + nl;
    lemma_split_line(p2, "---"@);
    let p4 = p3 + e + nl;
    lemma_split_line(p3, e);
    let p5 = p4 + st + nl;
    lemma_split_line(p4, st);
    let p6 = p5 + e + nl;
    lemma_split_line(p5, e);
    let p7 = p6 + ("**User:** "@ + t.user + nl);
    lemma_piece_split(p6, "**User:** "@, t.user);
    let p8 = p7 + e + nl;
    lemma_split_line(p7, e);
    let p9 = p8 + ("**Agent:** "@ + t.agent + nl);
    lemma_piece_split(p8, "**Agent:** "@, t.agent);
    assert(s + conversation_entry(t.timestamp, t.model, t.user, t.agent) =~= p9);
    assert(line_split(p9).0 =~= line_split(s).0 + entry_lines(t));
}

/// The lines of the log after the turns are written.
pub open spec fn all_lines(turns: Seq<LoggedTurn>) -> Seq<Seq<char>>
    decreases turns.len(),
{
    if turns.len() == 0 {
        header_lines()
    } else {
        all_lines(turns.drop_last()) + entry_lines(turns.last())
    }
}

proof fn lemma_log_split(turns: Seq<LoggedTurn>)
    requires
        forall|i: int| 0 <= i < turns.len() ==> plain_turn(#[trigger] turns[i]),
    ensures
        line_split(conversation_log(turns)) == (all_lines(turns), Seq::<char>::empty()),
    decreases turns.len(),
{
    if turns.len() == 0 {
        lemma_header_split();
    } else {
        let prev = turns.drop_last();
        assert forall|i: int| 0 <= i < prev.len() implies plain_turn(#[trigger] prev[i]) by {
            assert(prev[i] == turns[i]);
        }
        lemma_log_split(prev);
        assert(plain_turn(turns[turns.len() - 1]));
        lemma_entry_split(conversation_log(prev), turns.last());
    }
}

/// The scan after reading the lines, starting from `st`.
pub open spec fn scan_from(st: Scan, ls: Seq<Seq<char>>) -> Scan
    decreases ls.len(),
{
    if ls.len() == 0 {
        st
    } else {
        scan_line(scan_from(st, ls.drop_last()), ls.last())
    }
}

proof fn lemma_scan_concat(a: Seq<Seq<char>>, b: Seq<Seq<char>>)
    ensures
        scan_lines(a + b) == scan_from(scan_lines(a), b),
    decreases b.len(),
{
    if b.len() == 0 {
        assert(a + b =~= a);
    } else {
        lemma_scan_concat(a, b.drop_last());
        assert((a + b).drop_last() =~= a + b.drop_last());
        assert((a + b).last() == b.last());
    }
}

proof fn lemma_skip_blank(st: Scan)
    ensures
        scan_line(st, ""@) == st,
{
    reveal_strlit("");
    assert(trim_start(""@) == ""@);
    assert(trim_end(""@) == ""@);
}

proof fn lemma_skip_fixed(st: Scan, l: Seq<char>, p: Seq<char>)
    requires
        l.len() > 0,
        !is_ws(l[0]),
        !is_ws(l.last()),
        p == "---"@ || p == "**["@ || p == seq!['#'],
        starts_with(l, p),
    ensures
        scan_line(st, l) == st,
{
    lemma_trim_fixed(l);
}

/// Where the scan is before any line: waiting for a user turn, with the given history.
pub open spec fn waiting(h: Seq<Seq<char>>) -> Scan {
    (ScanState::WaitingUser, Seq::empty(), Seq::empty(), h)
}

proof fn lemma_not_prefix(l: Seq<char>, p: Seq<char>)
    requires
        l.len() > 0,
        p.len() > 0,
        l[0] != p[0],
    ensures
        !starts_with(l, p),
{
    lemma_not_prefix_at(l, p, 0);
}

proof fn lemma_not_prefix_at(l: Seq<char>, p: Seq<char>, i: int)
    requires
        0 <= i < l.len(),
        i < p.len(),
        l[i] != p[i],
    ensures
        !starts_with(l, p),
{
    if starts_with(l, p) {
        assert(l.subrange(0, p.len() as int)[i] == l[i]);
    }
}

proof fn lemma_scan_header()
    ensures
        scan_lines(header_lines()) == waiting(Seq::empty()),
{
    let h1 = "# Mullande Conversation Log"@;
    let h2 = "This file stores all conversations from mullande run and mullande chat."@;
    reveal_strlit("# Mullande Conversation Log");
    reveal_strlit("This file stores all conversations from mullande run and mullande chat.");
    reveal_strlit("");
    reveal_strlit("---");
    reveal_strlit("**[");
    reveal_strlit("**User:**");
    reveal_strlit("**Agent:**");
    let init = waiting(Seq::empty());
    let ls = header_lines();
    assert(ls.drop_last().drop_last().drop_last() =~= Seq::<Seq<char>>::empty());
    assert(scan_lines(ls.drop_last().drop_last().drop_last()) == init);
    assert(ls.drop_last().drop_last().last() == h1);
    assert(h1.subrange(0, 1) =~= seq!['#']);
    lemma_skip_fixed(init, h1, seq!['#']);
    assert(scan_lines(ls.drop_last().drop_last()) == init);
    assert(ls.drop_last().last() == ""@);
    lemma_skip_blank(init);
    assert(scan_lines(ls.drop_last()) == init);
    lemma_trim_fixed(h2);
    lemma_not_prefix(h2, "---"@);
    lemma_not_prefix(h2, "**["@);
    lemma_not_prefix(h2, seq!['#']);
    lemma_not_prefix(h2, user_marker());
    lemma_not_prefix(h2, agent_marker());
    assert(scan_line(init, h2) == init);
}

proof fn lemma_scan_step(st: Scan, ls: Seq<Seq<char>>, k: int)
    requires
        0 <= k < ls.len(),
    ensures
        scan_from(st, ls.subrange(0, k + 1)) == scan_line(scan_from(st, ls.subrange(0, k)), ls[k]),
{
    assert(ls.subrange(0, k + 1).drop_last() =~= ls.subrange(0, k));
}

/// The history a scan in the given state has once the next user turn opens.
pub open spec fn closed_history(st: Scan) -> Seq<Seq<char>> {
    if st.0 == ScanState::InAgent {
        st.3.push(trim(st.1)).push(trim(st.2))
    } else {
        st.3
    }
}

proof fn lemma_scan_from_concat(st: Scan, a: Seq<Seq<char>>, b: Seq<Seq<char>>)
    ensures
        scan_from(st, a + b) == scan_from(scan_from(st, a), b),
    decreases b.len(),
{
    if b.len() == 0 {
        assert(a + b =~= a);
    } else {
        lemma_scan_from_concat(st, a, b.drop_last());
        assert((a + b).drop_last() =~= a + b.drop_last());
        assert((a + b).last() == b.last());
    }
}

proof fn lemma_terminated_concat(a: Seq<Seq<char>>, b: Seq<Seq<char>>)
    ensures
        terminated(a + b) == terminated(a) + terminated(b),
    decreases b.len(),
{
    if b.len() == 0 {
        assert(a + b =~= a);
        assert(terminated(a) + terminated(b) =~= terminated(a));
    } else {
        lemma_terminated_concat(a, b.drop_last());
        assert((a + b).drop_last() =~= a + b.drop_last());
        assert((a + b).last() == b.last());
        assert(terminated(a) + terminated(b.drop_last()) + b.last() + "\n"@ =~= terminated(a) + (terminated(b.drop_last()) + b.last() + "\n"@));
    }
}

/// Ordinary lines add themselves, each with its end, to the text being read.
proof fn lemma_scan_cont(st: Scan, ls: Seq<Seq<char>>)
    requires
        st.0 == ScanState::InUser || st.0 == ScanState::InAgent,
        forall|i: int| 0 <= i < ls.len() ==> ordinary_line(#[trigger] ls[i]),
    ensures
        scan_from(st, ls) == if st.0 == ScanState::InUser {
            (st.0, st.1 + terminated(ls), st.2, st.3)
        } else {
            (st.0, st.1, st.2 + terminated(ls), st.3)
        },
    decreases ls.len(),
{
    reveal_strlit("\n");
    if ls.len() == 0 {
        assert(st.1 + terminated(ls) =~= st.1);
        assert(st.2 + terminated(ls) =~= st.2);
    } else {
        let l = ls.last();
        assert(ordinary_line(ls[ls.len() - 1]));
        lemma_scan_cont(st, ls.drop_last());
        assert(st.1 + terminated(ls.drop_last()) + l.push('\n') =~= st.1 + terminated(ls));
        assert(st.2 + terminated(ls.drop_last()) + l.push('\n') =~= st.2 + terminated(ls));
    }
}

/// Where the scan is after the lines of a marker and a kept text.
pub open spec fn after_kept_marker(st: Scan, user: bool, x: Seq<char>) -> Scan {
    if user {
        (ScanState::InUser, rest_text(x), Seq::empty(), closed_history(st))
    } else {
        (ScanState::InAgent, st.1, st.2 + rest_text(x), st.3)
    }
}

/// A text collected by the scan that trims to the given text, trimmed.
pub open spec fn reads_as(r: Seq<char>, x: Seq<char>) -> bool {
    r.len() > 0 && trim(r) == trim(x)
}

/// Where the scan may be after the lines of a marker and a readable text.
pub open spec fn after_marker(st: Scan, user: bool, x: Seq<char>, r: Scan) -> bool {
    if user {
        &&& r.0 == ScanState::InUser
        &&& reads_as(r.1, x)
        &&& r.2.len() == 0
        &&& r.3 == closed_history(st)
    } else {
        &&& r.0 == ScanState::InAgent
        &&& r.1 == st.1
        &&& reads_as(r.2, x)
        &&& r.3 == st.3
    }
}

proof fn lemma_scan_marker_text(st: Scan, user: bool, x: Seq<char>)
    requires
        readable_text(x),
        user ==> (st == waiting(st.3) || (st.0 == ScanState::InAgent && st.1.len() > 0 && st.2.len() > 0)),
        !user ==> st.0 == ScanState::InUser && st.2.len() == 0,
    ensures
        after_marker(st, user, x, scan_from(st, piece_lines(if user { "**User:** "@ } else { "**Agent:** "@ }, x))),
{
    reveal_strlit("**User:** ");
    reveal_strlit("**Agent:** ");
    reveal_strlit("**User:**");
    reveal_strlit("**Agent:**");
    reveal_strlit(" ");
    reveal_strlit("---");
    reveal_strlit("**[");
    let m = if user { user_marker() } else { agent_marker() };
    let mp = if user { "**User:** "@ } else { "**Agent:** "@ };
    assert(mp =~= m + " "@);
    if !x.contains('\n') {
        let l = strip_cr(mp + x);
        let ls = piece_lines(mp, x);
        assert(ls == seq![l]);
        assert(mp + x =~= m + " "@ + x);
        lemma_single_marker_line(m, x);
        let t = trim(l);
        let rest = t.subrange(m.len() as int, t.len() as int).push('\n');
        assert(t.len() >= 3);
        lemma_not_prefix(t, "---"@);
        lemma_not_prefix_at(t, "**["@, 2);
        lemma_not_prefix(t, seq!['#']);
        if !user {
            lemma_not_prefix_at(t, user_marker(), 2);
        }
        assert(Seq::<char>::empty() + rest =~= rest);
        assert(ls.drop_last() =~= Seq::<Seq<char>>::empty());
        assert(ls.last() == l);
        assert(scan_from(st, ls.drop_last()) == st);
        assert(scan_from(st, ls) == scan_line(st, l));
    } else {
        lemma_scan_kept_text(st, user, x);
        lemma_trim_rest(x);
        assert(st.2.len() == 0 ==> st.2 + rest_text(x) =~= rest_text(x));
    }
}

proof fn lemma_scan_kept_text(st: Scan, user: bool, x: Seq<char>)
    requires
        kept_text(x),
        user ==> (st == waiting(st.3) || (st.0 == ScanState::InAgent && st.1.len() > 0 && st.2.len() > 0)),
        !user ==> st.0 == ScanState::InUser && st.2.len() == 0,
    ensures
        scan_from(st, marker_text_lines(if user { "**User:** "@ } else { "**Agent:** "@ }, x)) == after_kept_marker(st, user, x),
{
    reveal_strlit("**User:** ");
    reveal_strlit("**Agent:** ");
    reveal_strlit("**User:**");
    reveal_strlit("**Agent:**");
    reveal_strlit(" ");
    reveal_strlit("\n");
    reveal_strlit("---");
    reveal_strlit("**[");
    let m = if user { user_marker() } else { agent_marker() };
    let mp = if user { "**User:** "@ } else { "**Agent:** "@ };
    assert(mp =~= m + " "@);
    let ls = marker_text_lines(mp, x);
    let first: Seq<char> = if x.len() == 0 { Seq::empty() } else { lines(x)[0] };
    assert(ls[0] =~= marker_line(m, first));
    lemma_marker_line(m, first);
    let t = trim(marker_line(m, first));
    lemma_not_prefix(t, "---"@);
    lemma_not_prefix_at(t, "**["@, 2);
    lemma_not_prefix(t, seq!['#']);
    if !user {
        lemma_not_prefix_at(t, user_marker(), 2);
    }
    let s1 = after_kept_marker(st, user, first);
    assert(Seq::<char>::empty() + rest_text(first) =~= rest_text(first));
    assert(scan_line(st, ls[0]) == s1);
    assert(ls.subrange(0, 0) =~= Seq::<Seq<char>>::empty());
    assert(scan_from(st, ls.subrange(0, 0)) == st);
    lemma_scan_step(st, ls, 0);
    assert(scan_from(st, ls.subrange(0, 1)) == s1);
    if x.len() == 0 {
        assert(ls.subrange(0, 1) =~= ls);
    } else {
        let l = lines(x);
        let rest = l.subrange(1, l.len() as int);
        assert(ls =~= ls.subrange(0, 1) + rest);
        assert forall|i: int| 0 <= i < rest.len() implies ordinary_line(#[trigger] rest[i]) by {
            assert(rest[i] == l[i + 1]);
        }
        lemma_scan_from_concat(st, ls.subrange(0, 1), rest);
        lemma_scan_cont(s1, rest);
        lemma_trimmed_ends(x);
        lemma_split_rejoin(x);
        let (d, c) = line_split(x);
        assert(x.drop_last() + seq![x.last()] =~= x);
        assert(c.len() > 0);
        assert(l == d.push(c));
        assert(d.push(c).drop_last() =~= d);
        assert(terminated(l) == terminated(d) + c + "\n"@);
        assert(l =~= seq![first] + rest);
        lemma_terminated_concat(seq![first], rest);
        let one = seq![first];
        assert(one.drop_last() =~= Seq::<Seq<char>>::empty());
        assert(one.last() == first);
        assert(terminated(one.drop_last()) == Seq::<char>::empty());
        assert(terminated(one) == terminated(one.drop_last()) + first + "\n"@);
        assert(terminated(one) =~= first + "\n"@);
        assert(first.len() > 0);
        assert(terminated(l) == terminated(one) + terminated(rest));
        assert(x + "\n"@ =~= terminated(d) + c + "\n"@);
        assert(x + "\n"@ == terminated(l));
        assert(rest_text(first) =~= seq![' '] + (first + "\n"@));
        assert(rest_text(x) =~= seq![' '] + (x + "\n"@));
        assert(rest_text(first) + terminated(rest) =~= seq![' '] + (first + "\n"@ + terminated(rest)));
        assert(rest_text(first) + terminated(rest) =~= rest_text(x));
        if !user {
            assert(st.2 + rest_text(first) + terminated(rest) =~= st.2 + rest_text(x));
        }
    }
}

proof fn lemma_scan_entry(st: Scan, t: LoggedTurn)
    requires
        plain_turn(t),
        st == waiting(st.3) || (st.0 == ScanState::InAgent && st.1.len() > 0 && st.2.len() > 0),
    ensures
        ({
            let r = scan_from(st, entry_lines(t));
            &&& r.0 == ScanState::InAgent
            &&& reads_as(r.1, t.user)
            &&& reads_as(r.2, t.agent)
            &&& r.3 == closed_history(st)
        }),
{
    reveal_strlit("");
    reveal_strlit("---");
    reveal_strlit("**[");
    reveal_strlit("]** Model: `");
    reveal_strlit("`");
    let fixed = seq![""@, ""@, "---"@, ""@, stamp_line(t), ""@];
    let ul = piece_lines("**User:** "@, t.user);
    let al = piece_lines("**Agent:** "@, t.agent);
    let st_line = stamp_line(t);
    // the blank, rule and stamp lines leave the scan as it is
    assert(fixed.subrange(0, 0) =~= Seq::<Seq<char>>::empty());
    lemma_scan_step(st, fixed, 0);
    lemma_scan_step(st, fixed, 1);
    lemma_scan_step(st, fixed, 2);
    lemma_scan_step(st, fixed, 3);
    lemma_scan_step(st, fixed, 4);
    lemma_scan_step(st, fixed, 5);
    lemma_skip_blank(st);
    assert("---"@.subrange(0, 3) =~= "---"@);
    lemma_skip_fixed(st, "---"@, "---"@);
    assert(st_line[0] == '*');
    assert(st_line.last() == '`');
    assert(st_line.subrange(0, 3) =~= "**["@);
    lemma_skip_fixed(st, st_line, "**["@);
    assert(fixed.subrange(0, 6) =~= fixed);
    assert(scan_from(st, fixed) == st);
    // the user's text, the blank line, and the answer
    lemma_scan_marker_text(st, true, t.user);
    let su = scan_from(st, ul);
    lemma_skip_blank(su);
    let blank = seq![""@];
    assert(blank.drop_last() =~= Seq::<Seq<char>>::empty());
    assert(blank.last() == ""@);
    assert(scan_from(su, blank.drop_last()) == su);
    assert(scan_from(su, blank) == su);
    lemma_scan_marker_text(su, false, t.agent);
    lemma_scan_from_concat(st, fixed, ul);
    lemma_scan_from_concat(st, fixed + ul, seq![""@]);
    lemma_scan_from_concat(st, fixed + ul + seq![""@], al);
}

proof fn lemma_scan_log(turns: Seq<LoggedTurn>)
    requires
        forall|i: int| 0 <= i < turns.len() ==> plain_turn(#[trigger] turns[i]),
    ensures
        ({
            let r = scan_lines(all_lines(turns));
            if turns.len() == 0 {
                r == waiting(Seq::empty())
            } else {
                &&& r.0 == ScanState::InAgent
                &&& reads_as(r.1, turns.last().user)
                &&& reads_as(r.2, turns.last().agent)
                &&& r.3 == turn_texts(turns.drop_last())
            }
        }),
    decreases turns.len(),
{
    if turns.len() == 0 {
        lemma_scan_header();
    } else {
        let prev = turns.drop_last();
        let t = turns.last();
        assert forall|i: int| 0 <= i < prev.len() implies plain_turn(#[trigger] prev[i]) by {
            assert(prev[i] == turns[i]);
        }
        assert(plain_turn(turns[turns.len() - 1]));
        lemma_scan_log(prev);
        lemma_scan_concat(all_lines(prev), entry_lines(t));
        let st = scan_lines(all_lines(prev));
        lemma_scan_entry(st, t);
        if prev.len() == 0 {
            assert(turn_texts(prev) =~= Seq::<Seq<char>>::empty());
        } else {
            let q = prev.last();
            assert(closed_history(st) == turn_texts(prev.drop_last()).push(trim(q.user)).push(trim(q.agent)));
        }
    }
}

/// What is written to the conversation log is read back: a log started anew
/// and given one entry per turn yields, turn by turn, the user's input and
/// the answer, each trimmed, for every turn whose texts the log can give
/// back (see `plain_turn`): a text of one line always is; one of several
/// lines is where no line of it but the first is blank or looks like the
/// log's own separators and markers.
pub proof fn lemma_log_reads_back_turns(turns: Seq<LoggedTurn>)
    requires
        forall|i: int| 0 <= i < turns.len() ==> plain_turn(#[trigger] turns[i]),
    ensures
        conversation_history(conversation_log(turns)) == turn_texts(turns),
{
    lemma_log_split(turns);
    lemma_scan_log(turns);
    let log = conversation_log(turns);
    assert(lines(log) == all_lines(turns));
}

/// Whether a line, trimmed, opens a user turn.
pub open spec fn opens_user(l: Seq<char>) -> bool {
    starts_with(trim(l), user_marker())
}

/// Whether a line, trimmed, opens an answer.
pub open spec fn opens_agent(l: Seq<char>) -> bool {
    starts_with(trim(l), agent_marker())
}

/// A model name a turn can be stamped with and still be read back: no line
/// of it but the first opens a user turn, nor, in the log's first turn, an
/// answer.
pub open spec fn stampable_model(model: Seq<char>, first: bool) -> bool {
    forall|j: int| 1 <= j < lines(model).len() ==> !opens_user(#[trigger] lines(model)[j]) && (first ==> !opens_agent(lines(model)[j]))
}

/// An answer after which the log goes on to read the next turn: no line of
/// it but the first opens a user turn.
pub open spec fn closing_answer(a: Seq<char>) -> bool {
    forall|j: int| 1 <= j < lines(a).len() ==> !opens_user(#[trigger] lines(a)[j])
}

/// The scan waits for a first turn, or is in an answer after a user text.
pub open spec fn ready(st: Scan) -> bool {
    st == waiting(st.3) || answered(st)
}

/// The scan has read a user text and an answer.
pub open spec fn answered(st: Scan) -> bool {
    st.0 == ScanState::InAgent && st.1.len() > 0 && st.2.len() > 0
}

/// The scan is in a turn whose user text it has begun.
pub open spec fn in_turn(st: Scan) -> bool {
    st.0 != ScanState::WaitingUser && st.1.len() > 0
}

/// The history holds whole turns.
pub open spec fn whole_turns(st: Scan) -> bool {
    st.3.len() % 2 == 0
}

proof fn lemma_trim_end_keeps_prefix(x: Seq<char>, p: Seq<char>)
    requires
        starts_with(x, p),
        p.len() > 0,
        !is_ws(p.last()),
    ensures
        starts_with(trim_end(x), p),
{
    lemma_trim_end_shape(x);
    let k = trim_end(x).len() as int;
    if k < p.len() {
        let tail = x.subrange(k, x.len() as int);
        assert(tail[p.len() - 1 - k] == x[p.len() - 1]);
        assert(x[p.len() - 1] == x.subrange(0, p.len() as int)[p.len() - 1]);
    }
    assert(trim_end(x).subrange(0, p.len() as int) =~= x.subrange(0, p.len() as int));
}

/// A line that begins with a text that begins and ends with characters that
/// are not whitespace still begins with it once trimmed.
proof fn lemma_trim_keeps_prefix(l: Seq<char>, p: Seq<char>)
    requires
        starts_with(l, p),
        p.len() > 0,
        !is_ws(p[0]),
        !is_ws(p.last()),
    ensures
        starts_with(trim(l), p),
{
    assert(l[0] == l.subrange(0, p.len() as int)[0]);
    assert(trim_start(l) == l);
    lemma_trim_end_keeps_prefix(l, p);
}

proof fn lemma_trim_strip_cr(l: Seq<char>)
    ensures
        trim(strip_cr(l)) == trim(l),
{
    if l.len() > 0 && l.last() == '\r' {
        assert(l =~= l.drop_last() + seq!['\r']);
        assert(all_ws(seq!['\r']));
        lemma_trim_ws_after(l.drop_last(), seq!['\r']);
    }
}

/// The closing backtick of a stamp does not make a line open a turn.
proof fn lemma_backtick_line(c: Seq<char>, m: Seq<char>)
    requires
        m == user_marker() || m == agent_marker(),
        starts_with(trim(c + "`"@), m),
    ensures
        starts_with(trim(c), m),
{
    reveal_strlit("`");
    reveal_strlit("**User:**");
    reveal_strlit("**Agent:**");
    let b = seq!['`'];
    assert(c + "`"@ =~= c + b);
    lemma_trim_start_concat(c, b);
    let x = trim_start(c);
    assert(trim_start(b) == b);
    let y = if x.len() > 0 { x + b } else { b };
    assert(trim_start(c + b) == y);
    assert(y.last() == '`');
    assert(trim_end(y) == y);
    assert(trim(c + b) == y);
    assert(m.len() >= 9);
    if x.len() == 0 {
        assert(false);
    }
    if m.len() > x.len() {
        assert(y.subrange(0, m.len() as int)[x.len() as int] == y[x.len() as int]);
        assert(y[x.len() as int] == '`');
        assert(m[x.len() as int] != '`');
        assert(false);
    }
    assert(x.subrange(0, m.len() as int) =~= y.subrange(0, m.len() as int));
    lemma_trim_end_keeps_prefix(x, m);
}

proof fn lemma_marker_starts(t: Seq<char>, m: Seq<char>)
    requires
        m == user_marker() || m == agent_marker(),
        starts_with(t, m),
    ensures
        t.len() >= 3,
        t[0] == '*',
        t[1] == '*',
        t[2] == m[2],
        !is_skipped_line(t),
{
    reveal_strlit("**User:**");
    reveal_strlit("**Agent:**");
    reveal_strlit("---");
    reveal_strlit("**[");
    assert(t[0] == t.subrange(0, m.len() as int)[0]);
    assert(t[1] == t.subrange(0, m.len() as int)[1]);
    assert(t[2] == t.subrange(0, m.len() as int)[2]);
    lemma_not_prefix(t, "---"@);
    lemma_not_prefix_at(t, "**["@, 2);
    lemma_not_prefix(t, seq!['#']);
}

/// Each line keeps the history in whole turns.
proof fn lemma_line_whole_turns(st: Scan, l: Seq<char>)
    requires
        whole_turns(st),
    ensures
        whole_turns(scan_line(st, l)),
{
}

/// Once a user text has begun, every line keeps the scan in a turn.
proof fn lemma_line_in_turn(st: Scan, l: Seq<char>)
    requires
        in_turn(st),
    ensures
        in_turn(scan_line(st, l)),
{
}

/// A line that opens a user turn begins one.
proof fn lemma_user_line(st: Scan, l: Seq<char>)
    ensures
        opens_user(l) ==> in_turn(scan_line(st, l)),
{
    if opens_user(l) {
        lemma_marker_starts(trim(l), user_marker());
    }
}

/// A line that opens an answer, in a turn, gives the turn an answer.
proof fn lemma_agent_line(st: Scan, l: Seq<char>)
    requires
        in_turn(st),
        opens_agent(l),
    ensures
        answered(scan_line(st, l)),
{
    reveal_strlit("**User:**");
    reveal_strlit("**Agent:**");
    lemma_marker_starts(trim(l), agent_marker());
    lemma_not_prefix_at(trim(l), user_marker(), 2);
}

/// In an answer, a line that opens no user turn keeps it an answer.
proof fn lemma_line_answered(st: Scan, l: Seq<char>)
    requires
        answered(st),
        !opens_user(l),
    ensures
        answered(scan_line(st, l)),
{
}

/// Before the first turn or in an answer, a line that opens no user turn,
/// nor before the first turn an answer, changes neither where the scan is
/// nor the history.
proof fn lemma_line_harmless(st: Scan, l: Seq<char>)
    requires
        ready(st),
        !opens_user(l),
        st.0 == ScanState::WaitingUser ==> !opens_agent(l),
    ensures
        ready(scan_line(st, l)),
        scan_line(st, l).0 == st.0,
        scan_line(st, l).3 == st.3,
{
}

proof fn lemma_scan_one(st: Scan, l: Seq<char>)
    ensures
        scan_from(st, seq![l]) == scan_line(st, l),
{
    assert(seq![l].drop_last() =~= Seq::<Seq<char>>::empty());
    assert(seq![l].last() == l);
    assert(scan_from(st, Seq::<Seq<char>>::empty()) == st);
}

proof fn lemma_lines_whole_turns(st: Scan, ls: Seq<Seq<char>>)
    requires
        whole_turns(st),
    ensures
        whole_turns(scan_from(st, ls)),
    decreases ls.len(),
{
    if ls.len() > 0 {
        lemma_lines_whole_turns(st, ls.drop_last());
        lemma_line_whole_turns(scan_from(st, ls.drop_last()), ls.last());
    }
}

proof fn lemma_lines_in_turn(st: Scan, ls: Seq<Seq<char>>)
    requires
        in_turn(st),
    ensures
        in_turn(scan_from(st, ls)),
    decreases ls.len(),
{
    if ls.len() > 0 {
        lemma_lines_in_turn(st, ls.drop_last());
        lemma_line_in_turn(scan_from(st, ls.drop_last()), ls.last());
    }
}

/// Lines that begin with one opening a user turn leave the scan in a turn.
proof fn lemma_lines_open_turn(st: Scan, ls: Seq<Seq<char>>)
    requires
        ls.len() > 0,
        opens_user(ls[0]),
    ensures
        in_turn(scan_from(st, ls)),
    decreases ls.len(),
{
    if ls.len() == 1 {
        lemma_scan_one(st, ls[0]);
        assert(ls =~= seq![ls[0]]);
        lemma_user_line(st, ls[0]);
    } else {
        assert(ls.drop_last()[0] == ls[0]);
        lemma_lines_open_turn(st, ls.drop_last());
        lemma_line_in_turn(scan_from(st, ls.drop_last()), ls.last());
    }
}

/// In a turn, lines that begin with one opening an answer, none of which
/// opens a user turn, leave the turn answered.
proof fn lemma_lines_open_answer(st: Scan, ls: Seq<Seq<char>>)
    requires
        in_turn(st),
        ls.len() > 0,
        opens_agent(ls[0]),
        forall|i: int| 0 <= i < ls.len() ==> !opens_user(#[trigger] ls[i]),
    ensures
        answered(scan_from(st, ls)),
    decreases ls.len(),
{
    if ls.len() == 1 {
        lemma_scan_one(st, ls[0]);
        assert(ls =~= seq![ls[0]]);
        lemma_agent_line(st, ls[0]);
    } else {
        let p = ls.drop_last();
        assert(p[0] == ls[0]);
        assert forall|i: int| 0 <= i < p.len() implies !opens_user(#[trigger] p[i]) by {
            assert(p[i] == ls[i]);
        }
        lemma_lines_open_answer(st, p);
        assert(!opens_user(ls[ls.len() - 1]));
        lemma_line_answered(scan_from(st, p), ls.last());
    }
}

/// Lines none of which opens a user turn, nor before the first turn an
/// answer, change neither where the scan is nor the history.
proof fn lemma_lines_harmless(st: Scan, ls: Seq<Seq<char>>)
    requires
        ready(st),
        forall|i: int| 0 <= i < ls.len() ==> !opens_user(#[trigger] ls[i]) && (st.0 == ScanState::WaitingUser ==> !opens_agent(ls[i])),
    ensures
        ready(scan_from(st, ls)),
        scan_from(st, ls).0 == st.0,
        scan_from(st, ls).3 == st.3,
    decreases ls.len(),
{
    if ls.len() > 0 {
        let p = ls.drop_last();
        assert forall|i: int| 0 <= i < p.len() implies !opens_user(#[trigger] p[i]) && (st.0 == ScanState::WaitingUser ==> !opens_agent(p[i])) by {
            assert(p[i] == ls[i]);
        }
        lemma_lines_harmless(st, p);
        assert(!opens_user(ls[ls.len() - 1]));
        lemma_line_harmless(scan_from(st, p), ls.last());
    }
}

/// The text that opens a turn's stamp, before its model.
pub open spec fn stamp_head(timestamp: Seq<char>) -> Seq<char> {
    "**["@ + timestamp + "]** Model: `"@
}

/// The text of an entry before the user's text: the separator and the stamp.
pub open spec fn entry_head(t: LoggedTurn) -> Seq<char> {
    "\n\n---\n\n"@ + stamp_head(t.timestamp) + t.model + "`\n\n"@
}

/// A marker followed by a text and the line's end.
pub open spec fn marked_part(mp: Seq<char>, x: Seq<char>) -> Seq<char> {
    mp + x + "\n"@
}

/// The lines of an entry, read part by part: its head, the user's part, the
/// blank line, the answer's part.
pub open spec fn entry_part_lines(t: LoggedTurn) -> Seq<Seq<char>> {
    line_split(entry_head(t)).0 + line_split(marked_part("**User:** "@, t.user)).0 + line_split("\n"@).0
        + line_split(marked_part("**Agent:** "@, t.agent)).0
}

proof fn lemma_entry_parts(t: LoggedTurn)
    ensures
        conversation_entry(t.timestamp, t.model, t.user, t.agent) == entry_head(t) + marked_part("**User:** "@, t.user) + "\n"@
            + marked_part("**Agent:** "@, t.agent),
{
    reveal_strlit("\n");
    reveal_strlit("**[");
    reveal_strlit("]** Model: `");
    reveal_strlit("**User:** ");
    reveal_strlit("**Agent:** ");
    reveal_strlit("\n\n---\n\n");
    reveal_strlit("`\n\n");
    reveal_strlit("\n\n---\n\n**[");
    reveal_strlit("`\n\n**User:** ");
    reveal_strlit("\n\n**Agent:** ");
    assert(conversation_entry(t.timestamp, t.model, t.user, t.agent) =~= entry_head(t) + marked_part("**User:** "@, t.user) + "\n"@
        + marked_part("**Agent:** "@, t.agent));
}

proof fn lemma_ends_line(y: Seq<char>)
    requires
        y.len() > 0,
        y.last() == '\n',
    ensures
        line_split(y).1.len() == 0,
{
}

proof fn lemma_entry_part_split(s: Seq<char>, t: LoggedTurn)
    requires
        line_split(s).1.len() == 0,
    ensures
        line_split(s + conversation_entry(t.timestamp, t.model, t.user, t.agent)) == (line_split(s).0 + entry_part_lines(t), Seq::<char>::empty()),
{
    reveal_strlit("\n");
    reveal_strlit("`\n\n");
    lemma_entry_parts(t);
    let h = entry_head(t);
    let u = marked_part("**User:** "@, t.user);
    let n = "\n"@;
    let g = marked_part("**Agent:** "@, t.agent);
    assert(h.last() == '\n');
    assert(u.last() == '\n');
    assert(g.last() == '\n');
    lemma_ends_line(h);
    lemma_ends_line(u);
    lemma_ends_line(n);
    lemma_ends_line(g);
    lemma_split_concat(s, h);
    lemma_split_concat(s + h, u);
    lemma_split_concat(s + h + u, n);
    lemma_split_concat(s + h + u + n, g);
    assert(s + conversation_entry(t.timestamp, t.model, t.user, t.agent) =~= s + h + u + n + g);
    assert(line_split(s).0 + entry_part_lines(t) =~= line_split(s).0 + line_split(h).0 + line_split(u).0 + line_split(n).0 + line_split(g).0);
}

/// The lines of a marker, a text and the line's end: the first begins with
/// the marker, and the others are those of the text, trimmed alike, or empty.
proof fn lemma_marked_lines(mp: Seq<char>, x: Seq<char>)
    requires
        !mp.contains('\n'),
        mp.len() > 0,
        mp.last() == ' ',
    ensures
        ({
            let ls = line_split(marked_part(mp, x)).0;
            &&& ls.len() > 0
            &&& starts_with(ls[0], mp)
            &&& forall|j: int| 1 <= j < ls.len() ==> (#[trigger] ls[j]).len() == 0
                || (j < lines(x).len() && trim(ls[j]) == trim(lines(x)[j]))
        }),
{
    reveal_strlit("\n");
    let y = x + "\n"@;
    assert(marked_part(mp, x) =~= mp + y);
    lemma_split_prefix(mp, y);
    lemma_split_newline(x);
    let (d, c) = line_split(x);
    let l = line_split(y).0;
    assert(l == d.push(strip_cr(c)));
    let ls = line_split(marked_part(mp, x)).0;
    assert(ls == l.update(0, mp + l[0]));
    assert(ls[0].subrange(0, mp.len() as int) =~= mp);
    assert forall|j: int| 1 <= j < ls.len() implies (#[trigger] ls[j]).len() == 0
        || (j < lines(x).len() && trim(ls[j]) == trim(lines(x)[j])) by {
        assert(ls[j] == l[j]);
        if j < d.len() {
            assert(l[j] == d[j]);
            if c.len() > 0 {
                assert(lines(x) == d.push(c));
            }
            assert(lines(x)[j] == d[j]);
        } else {
            assert(l[j] == strip_cr(c));
            if c.len() > 0 {
                assert(lines(x) == d.push(c));
                assert(lines(x)[j] == c);
                lemma_trim_strip_cr(c);
            }
        }
    }
}

proof fn lemma_empty_opens_nothing(l: Seq<char>)
    requires
        l.len() == 0,
    ensures
        !opens_user(l),
        !opens_agent(l),
{
    reveal_strlit("**User:**");
    reveal_strlit("**Agent:**");
    assert(trim_start(l) == l);
    assert(trim_end(l) == l);
}

/// A line that begins with `**[`, as a stamp does, opens no turn.
proof fn lemma_stamp_opens_nothing(l: Seq<char>)
    requires
        starts_with(l, "**["@),
    ensures
        !opens_user(l),
        !opens_agent(l),
{
    reveal_strlit("**[");
    reveal_strlit("**User:**");
    reveal_strlit("**Agent:**");
    lemma_trim_keeps_prefix(l, "**["@);
    let t = trim(l);
    assert(t[2] == t.subrange(0, 3)[2]);
    lemma_not_prefix_at(t, user_marker(), 2);
    lemma_not_prefix_at(t, agent_marker(), 2);
}

/// The lines of a stamp: the head and the model's first line, then the
/// model's other lines, the last with the closing backtick.
proof fn lemma_stamp_split(t: LoggedTurn)
    requires
        !t.timestamp.contains('\n'),
    ensures
        ({
            let (d, c) = line_split(t.model);
            let l = d.push(c + "`"@);
            line_split(stamp_head(t.timestamp) + t.model + "`\n"@) == (l.update(0, stamp_head(t.timestamp) + l[0]), Seq::<char>::empty())
        }),
{
    reveal_strlit("**[");
    reveal_strlit("]** Model: `");
    reveal_strlit("`");
    reveal_strlit("`\n");
    reveal_strlit("\n");
    let head = stamp_head(t.timestamp);
    assert(!"**["@.contains('\n'));
    assert(!"]** Model: `"@.contains('\n'));
    assert(!"`"@.contains('\n'));
    lemma_no_newline_concat("**["@, t.timestamp);
    lemma_no_newline_concat("**["@ + t.timestamp, "]** Model: `"@);
    assert(head.last() == '`');
    let z = t.model + "`"@;
    let y = z + "\n"@;
    assert(head + t.model + "`\n"@ =~= head + y);
    lemma_split_prefix(head, y);
    lemma_split_newline(z);
    lemma_split_no_newline(t.model, "`"@);
    let (d, c) = line_split(t.model);
    assert((c + "`"@).last() == '`');
    assert(strip_cr(c + "`"@) == c + "`"@);
}

/// Where the model's name suits its turn, no line of an entry's head opens
/// a user turn, nor, in the log's first turn, an answer.
proof fn lemma_head_harmless(t: LoggedTurn, first: bool)
    requires
        !t.timestamp.contains('\n'),
        stampable_model(t.model, first),
    ensures
        forall|i: int| 0 <= i < line_split(entry_head(t)).0.len() ==> !opens_user(#[trigger] line_split(entry_head(t)).0[i])
            && (first ==> !opens_agent(line_split(entry_head(t)).0[i])),
{
    reveal_strlit("");
    reveal_strlit("\n");
    reveal_strlit("---");
    reveal_strlit("\n\n---\n\n");
    reveal_strlit("`\n\n");
    reveal_strlit("`\n");
    reveal_strlit("**User:**");
    reveal_strlit("**Agent:**");
    let e = ""@;
    let nl = "\n"@;
    let sep = "\n\n---\n\n"@;
    let st = stamp_head(t.timestamp) + t.model + "`\n"@;
    assert(entry_head(t) =~= sep + st + nl);
    // the separator's lines
    assert(line_split(Seq::<char>::empty()) == (Seq::<Seq<char>>::empty(), Seq::<char>::empty()));
    let p1 = Seq::<char>::empty() + e + nl;
    lemma_split_line(Seq::<char>::empty(), e);
    let p2 = p1 + e + nl;
    lemma_split_line(p1, e);
    let p3 = p2 + "---"@ + nl;
    assert(!"---"@.contains('\n'));
    lemma_split_line(p2, "---"@);
    let p4 = p3 + e + nl;
    lemma_split_line(p3, e);
    assert(sep =~= p4);
    assert(strip_cr(e) == e);
    assert(strip_cr("---"@) == "---"@);
    let sl = line_split(sep).0;
    assert(sl =~= seq![e, e, "---"@, e]);
    // the blank line after the stamp
    lemma_split_line(Seq::<char>::empty(), e);
    assert(Seq::<char>::empty() + e + nl =~= nl);
    assert(line_split(nl).0 =~= seq![e]);
    // the stamp's lines
    lemma_stamp_split(t);
    let (d, c) = line_split(t.model);
    let l = d.push(c + "`"@);
    let stl = l.update(0, stamp_head(t.timestamp) + l[0]);
    assert(line_split(st).0 == stl);
    lemma_ends_line(sep);
    lemma_ends_line(st);
    lemma_split_concat(sep, st);
    lemma_split_concat(sep + st, nl);
    let all = line_split(entry_head(t)).0;
    assert(all =~= sl + stl + seq![e]);
    lemma_empty_opens_nothing(e);
    assert(trim("---"@) == "---"@) by {
        lemma_trim_fixed("---"@);
    }
    assert(!opens_user("---"@) && !opens_agent("---"@));
    assert(starts_with(stl[0], "**["@)) by {
        reveal_strlit("**[");
        reveal_strlit("]** Model: `");
        assert(stl[0].subrange(0, 3) =~= "**["@);
    }
    lemma_stamp_opens_nothing(stl[0]);
    assert forall|j: int| 1 <= j < stl.len() implies !opens_user(#[trigger] stl[j]) && (first ==> !opens_agent(stl[j])) by {
        assert(stl[j] == l[j]);
        if c.len() > 0 {
            assert(lines(t.model) == d.push(c));
        } else {
            assert(lines(t.model) == d);
        }
        if j < d.len() {
            assert(l[j] == d[j]);
            assert(lines(t.model)[j] == d[j]);
        } else {
            assert(l[j] == c + "`"@);
            if opens_user(c + "`"@) {
                lemma_backtick_line(c, user_marker());
                if c.len() == 0 {
                    lemma_empty_opens_nothing(c);
                } else {
                    assert(lines(t.model)[j] == c);
                }
            }
            if first && opens_agent(c + "`"@) {
                lemma_backtick_line(c, agent_marker());
                if c.len() == 0 {
                    lemma_empty_opens_nothing(c);
                } else {
                    assert(lines(t.model)[j] == c);
                }
            }
        }
    }
    assert forall|i: int| 0 <= i < all.len() implies !opens_user(#[trigger] all[i]) && (first ==> !opens_agent(all[i])) by {
        if i < 4 {
            assert(all[i] == sl[i]);
        } else if i < 4 + stl.len() {
            assert(all[i] == stl[i - 4]);
        } else {
            assert(all[i] == e);
        }
    }
}

/// The first line of a marked part opens what its marker opens.
proof fn lemma_marked_first_line(mp: Seq<char>, m: Seq<char>, x: Seq<char>)
    requires
        m == user_marker() || m == agent_marker(),
        mp == m + " "@,
    ensures
        line_split(marked_part(mp, x)).0.len() > 0,
        starts_with(trim(line_split(marked_part(mp, x)).0[0]), m),
{
    reveal_strlit(" ");
    reveal_strlit("**User:**");
    reveal_strlit("**Agent:**");
    assert(!mp.contains('\n')) by {
        if mp.contains('\n') {
            let i = choose|i: int| 0 <= i < mp.len() && mp[i] == '\n';
            assert(mp[i] == (m + " "@)[i]);
        }
    }
    assert(mp.last() == ' ');
    lemma_marked_lines(mp, x);
    let l0 = line_split(marked_part(mp, x)).0[0];
    assert(l0.subrange(0, m.len() as int) =~= l0.subrange(0, mp.len() as int).subrange(0, m.len() as int));
    assert(mp.subrange(0, m.len() as int) =~= m);
    lemma_trim_keeps_prefix(l0, m);
}

/// A log that entries wrote, whatever their texts, read up to its end: the
/// history holds whole turns, and the scan waits for a first turn, or, where
/// each answer ends its turn (see `closing_answer`), is in the last answer.
proof fn lemma_scan_any_log(turns: Seq<LoggedTurn>)
    requires
        forall|i: int| 0 <= i < turns.len() ==> closing_answer((#[trigger] turns[i]).agent),
    ensures
        line_split(conversation_log(turns)).1.len() == 0,
        whole_turns(scan_lines(line_split(conversation_log(turns)).0)),
        turns.len() == 0 ==> scan_lines(line_split(conversation_log(turns)).0) == waiting(Seq::empty()),
        turns.len() > 0 ==> answered(scan_lines(line_split(conversation_log(turns)).0)),
    decreases turns.len(),
{
    reveal_strlit(" ");
    reveal_strlit("**User:** ");
    reveal_strlit("**Agent:** ");
    reveal_strlit("**User:**");
    reveal_strlit("**Agent:**");
    if turns.len() == 0 {
        lemma_header_split();
        lemma_scan_header();
    } else {
        let prev = turns.drop_last();
        let t = turns.last();
        assert forall|i: int| 0 <= i < prev.len() implies closing_answer((#[trigger] prev[i]).agent) by {
            assert(prev[i] == turns[i]);
        }
        assert(closing_answer(turns[turns.len() - 1].agent));
        lemma_scan_any_log(prev);
        let a = line_split(conversation_log(prev)).0;
        lemma_entry_part_split(conversation_log(prev), t);
        lemma_scan_concat(a, entry_part_lines(t));
        let hl = line_split(entry_head(t)).0;
        let ul = line_split(marked_part("**User:** "@, t.user)).0;
        let nl = line_split("\n"@).0;
        let gl = line_split(marked_part("**Agent:** "@, t.agent)).0;
        assert(entry_part_lines(t) == hl + ul + nl + gl);
        let r0 = scan_lines(a);
        lemma_scan_from_concat(r0, hl + ul + nl, gl);
        lemma_scan_from_concat(r0, hl + ul, nl);
        lemma_scan_from_concat(r0, hl, ul);
        let r1 = scan_from(r0, hl);
        lemma_lines_whole_turns(r0, hl);
        let r2 = scan_from(r1, ul);
        assert("**User:** "@ =~= user_marker() + " "@);
        lemma_marked_first_line("**User:** "@, user_marker(), t.user);
        lemma_lines_open_turn(r1, ul);
        lemma_lines_whole_turns(r1, ul);
        let r3 = scan_from(r2, nl);
        lemma_lines_in_turn(r2, nl);
        lemma_lines_whole_turns(r2, nl);
        assert("**Agent:** "@ =~= agent_marker() + " "@);
        lemma_marked_first_line("**Agent:** "@, agent_marker(), t.agent);
        lemma_marked_lines("**Agent:** "@, t.agent);
        let t0 = trim(gl[0]);
        lemma_marker_starts(t0, agent_marker());
        lemma_not_prefix_at(t0, user_marker(), 2);
        assert forall|i: int| 0 <= i < gl.len() implies !opens_user(#[trigger] gl[i]) by {
            if i >= 1 {
                if gl[i].len() == 0 {
                    lemma_empty_opens_nothing(gl[i]);
                } else {
                    assert(trim(gl[i]) == trim(lines(t.agent)[i]));
                }
            }
        }
        lemma_lines_open_answer(r3, gl);
        lemma_lines_whole_turns(r3, gl);
        assert(line_split(conversation_log(turns)) == line_split(conversation_log(prev) + conversation_entry(t.timestamp, t.model, t.user, t.agent)));
    }
}

/// A turn added to the log, as `Memory::append_to_conversation` adds it, to
/// a log that such additions wrote (or to no log yet) is read back as the
/// last turn: the history holds whole turns, and its last two texts are the
/// turn's input and answer, trimmed. This holds for every model name no line
/// of which but the first opens a user turn (nor, in the log's first turn,
/// an answer), for texts the log gives back (see `readable_text`), and where
/// no earlier answer has a further line that opens a user turn; the time is
/// the one line chrono writes.
pub proof fn lemma_appended_turn_reads_back(
    earlier: Seq<LoggedTurn>,
    existing: Option<Seq<char>>,
    timestamp: Seq<char>,
    model: Seq<char>,
    user: Seq<char>,
    agent: Seq<char>,
)
    requires
        match existing {
            Some(e) => e == conversation_log(earlier),
            None => earlier.len() == 0,
        },
        forall|i: int| 0 <= i < earlier.len() ==> closing_answer((#[trigger] earlier[i]).agent),
        !timestamp.contains('\n'),
        stampable_model(model, earlier.len() == 0),
        readable_text(user),
        readable_text(agent),
    ensures
        ({
            let h = conversation_history(match existing {
                Some(e) => e,
                None => conversation_header(),
            } + conversation_entry(timestamp, model, user, agent));
            &&& h.len() >= 2
            &&& h.len() % 2 == 0
            &&& h[h.len() - 2] == trim(user)
            &&& h[h.len() - 1] == trim(agent)
        }),
{
    reveal_strlit("**User:** ");
    reveal_strlit("**Agent:** ");
    let t = LoggedTurn { timestamp, model, user, agent };
    if existing is None {
        assert(earlier =~= Seq::<LoggedTurn>::empty());
        assert(conversation_log(earlier) == conversation_header());
    }
    let log = conversation_log(earlier);
    let content = log + conversation_entry(timestamp, model, user, agent);
    lemma_scan_any_log(earlier);
    let a = line_split(log).0;
    lemma_entry_part_split(log, t);
    assert(lines(content) == a + entry_part_lines(t));
    lemma_scan_concat(a, entry_part_lines(t));
    let hl = line_split(entry_head(t)).0;
    let ul = line_split(marked_part("**User:** "@, user)).0;
    let nl = line_split("\n"@).0;
    let gl = line_split(marked_part("**Agent:** "@, agent)).0;
    let r0 = scan_lines(a);
    assert(ready(r0));
    assert(r0.0 == ScanState::WaitingUser <==> earlier.len() == 0);
    lemma_scan_from_concat(r0, hl + ul + nl, gl);
    lemma_scan_from_concat(r0, hl + ul, nl);
    lemma_scan_from_concat(r0, hl, ul);
    // the head changes nothing
    lemma_head_harmless(t, earlier.len() == 0);
    lemma_lines_harmless(r0, hl);
    let r1 = scan_from(r0, hl);
    // the user's text and the answer
    lemma_piece_split(Seq::<char>::empty(), "**User:** "@, user);
    assert(Seq::<char>::empty() + ("**User:** "@ + user + "\n"@) =~= marked_part("**User:** "@, user));
    assert(ul =~= piece_lines("**User:** "@, user));
    lemma_scan_marker_text(r1, true, user);
    let r2 = scan_from(r1, ul);
    reveal_strlit("");
    reveal_strlit("\n");
    lemma_split_line(Seq::<char>::empty(), ""@);
    assert(Seq::<char>::empty() + ""@ + "\n"@ =~= "\n"@);
    assert(nl =~= seq![""@]);
    lemma_scan_one(r2, ""@);
    lemma_skip_blank(r2);
    let r3 = scan_from(r2, nl);
    assert(r3 == r2);
    lemma_piece_split(Seq::<char>::empty(), "**Agent:** "@, agent);
    assert(Seq::<char>::empty() + ("**Agent:** "@ + agent + "\n"@) =~= marked_part("**Agent:** "@, agent));
    assert(gl =~= piece_lines("**Agent:** "@, agent));
    lemma_scan_marker_text(r3, false, agent);
    let r4 = scan_from(r3, gl);
    assert(scan_lines(lines(content)) == r4);
    assert(whole_turns(r1));
}

} // verus!
