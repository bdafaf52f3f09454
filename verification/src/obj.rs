//! Reading Wavefront OBJ text: vertex records, triangular faces and the groups that name them.
//!
//! Coordinates are kept as the text of their fields; turning them into numbers is left to the
//! caller.
use vstd::prelude::*;

verus! {

broadcast use vstd::string::group_string_axioms;

/// Whether `c` is white space in the Unicode sense (the `White_Space` property), the set that
/// separates the fields of a line.
pub open spec fn is_ws(c: char) -> bool {
    let n = c as u32;
    ||| 9 <= n <= 13
    ||| n == 32
    ||| n == 0x85
    ||| n == 0xA0
    ||| n == 0x1680
    ||| 0x2000 <= n <= 0x200A
    ||| n == 0x2028
    ||| n == 0x2029
    ||| n == 0x202F
    ||| n == 0x205F
    ||| n == 0x3000
}

/// The pieces of `s` between line feeds, in order; there is always at least one.
pub open spec fn split_lines(s: Seq<char>) -> Seq<Seq<char>>
    decreases s.len(),
{
    if s.len() == 0 {
        seq![Seq::empty()]
    } else {
        let r = split_lines(s.drop_last());
        if s.last() == '\n' {
            r.push(Seq::empty())
        } else {
            r.update(r.len() - 1, r.last().push(s.last()))
        }
    }
}

/// The maximal runs of non-white-space characters of `line`, in order.
pub open spec fn tokens(line: Seq<char>) -> Seq<Seq<char>>
    decreases line.len(),
{
    if line.len() == 0 {
        Seq::empty()
    } else {
        let t = tokens(line.drop_last());
        if is_ws(line.last()) {
            t
        } else if line.len() >= 2 && !is_ws(line[line.len() - 2]) {
            t.update(t.len() - 1, t.last().push(line.last()))
        } else {
            t.push(seq![line.last()])
        }
    }
}

/// Whether every character of `d` is an ASCII digit.
pub open spec fn all_digits(d: Seq<char>) -> bool {
    forall|i: int| 0 <= i < d.len() ==> '0' <= #[trigger] d[i] <= '9'
}

/// The number written in decimal by the digits `d`.
pub open spec fn digits_value(d: Seq<char>) -> int
    decreases d.len(),
{
    if d.len() == 0 {
        0
    } else {
        digits_value(d.drop_last()) * 10 + (d.last() as int - '0' as int)
    }
}

/// `s` without its leading `+`, if any.
pub open spec fn digit_part(s: Seq<char>) -> Seq<char> {
    if s.len() > 0 && s[0] == '+' {
        s.drop_first()
    } else {
        s
    }
}

/// How the standard library reads an unsigned machine integer from `s`: an optional `+`, then
/// one or more ASCII digits, whose value must fit in `usize`.
pub open spec fn parse_usize_spec(s: Seq<char>) -> Option<usize> {
    let d = digit_part(s);
    if d.len() == 0 || !all_digits(d) || digits_value(d) > usize::MAX {
        None
    } else {
        Some(digits_value(d) as usize)
    }
}

/// The part of `t` before its first `/`, or all of `t`.
pub open spec fn before_slash(t: Seq<char>) -> Seq<char>
    decreases t.len(),
{
    if t.len() == 0 {
        t
    } else if t[0] == '/' {
        Seq::empty()
    } else {
        seq![t[0]] + before_slash(t.drop_first())
    }
}

/// The zero-based vertex index of a face field: its vertex number (the part before any `/`),
/// lowered by one, where 0 stays 0.
pub open spec fn face_index(t: Seq<char>) -> Option<usize> {
    match parse_usize_spec(before_slash(t)) {
        Some(v) => Some(if v == 0 { 0usize } else { (v - 1) as usize }),
        None => None,
    }
}

/// What reading OBJ text has found so far: the coordinate fields of each vertex, the vertex
/// indices of each face, the faces of each group by first appearance of its name, the name of
/// the current group, and the error that stopped reading, if any.
pub struct ObjModel {
    pub vertices: Seq<(Seq<char>, Seq<char>, Seq<char>)>,
    pub faces: Seq<Seq<usize>>,
    pub groups: Seq<(Seq<char>, Seq<usize>)>,
    pub current: Seq<char>,
    pub error: Option<Seq<char>>,
}

/// The position of the first group named `name` in `gs`, or -1.
pub open spec fn group_position(gs: Seq<(Seq<char>, Seq<usize>)>, name: Seq<char>) -> int
    decreases gs.len(),
{
    if gs.len() == 0 {
        -1
    } else {
        let p = group_position(gs.drop_last(), name);
        if p >= 0 {
            p
        } else if gs.last().0 == name {
            gs.len() - 1
        } else {
            -1
        }
    }
}

/// `gs` with face `f` added to the group named `name`, which is created after the others when
/// it is new.
pub open spec fn add_to_group(gs: Seq<(Seq<char>, Seq<usize>)>, name: Seq<char>, f: usize) -> Seq<
    (Seq<char>, Seq<usize>),
> {
    let p = group_position(gs, name);
    if p >= 0 {
        gs.update(p, (name, gs[p].1.push(f)))
    } else {
        gs.push((name, seq![f]))
    }
}

/// The state before any line is read.
pub open spec fn initial_model() -> ObjModel {
    ObjModel {
        vertices: Seq::empty(),
        faces: Seq::empty(),
        groups: Seq::empty(),
        current: seq!['d', 'e', 'f', 'a', 'u', 'l', 't'],
        error: None,
    }
}

/// `m` stopped by the error `e`.
pub open spec fn with_error(m: ObjModel, e: Seq<char>) -> ObjModel {
    ObjModel { error: Some(e), ..m }
}

/// Reads one line, given by its fields `toks`. Blank lines and comments are skipped; `v` adds a
/// vertex, `f` a face to the current group, `g` and `usemtl` name the current group; any other
/// line is ignored. Nothing changes once an error has stopped reading.
pub open spec fn step(m: ObjModel, toks: Seq<Seq<char>>) -> ObjModel {
    if m.error is Some || toks.len() == 0 || toks[0][0] == '#' {
        m
    } else if toks[0] == seq!['v'] {
        if toks.len() < 4 {
            with_error(m, "Invalid vertex format"@)
        } else {
            ObjModel { vertices: m.vertices.push((toks[1], toks[2], toks[3])), ..m }
        }
    } else if toks[0] == seq!['f'] {
        if toks.len() < 4 {
            with_error(m, "Invalid face format"@)
        } else {
            match (face_index(toks[1]), face_index(toks[2]), face_index(toks[3])) {
                (Some(a), Some(b), Some(c)) => ObjModel {
                    faces: m.faces.push(seq![a, b, c]),
                    groups: add_to_group(m.groups, m.current, m.faces.len() as usize),
                    ..m
                },
                _ => with_error(m, "Failed to parse face index"@),
            }
        }
    } else if toks[0] == seq!['g'] || toks[0] == seq!['u', 's', 'e', 'm', 't', 'l'] {
        if toks.len() > 1 {
            ObjModel { current: toks[1], ..m }
        } else {
            m
        }
    } else {
        m
    }
}

/// The state after reading the lines `ls` in order.
pub open spec fn lines_model(ls: Seq<Seq<char>>) -> ObjModel
    decreases ls.len(),
{
    if ls.len() == 0 {
        initial_model()
    } else {
        step(lines_model(ls.drop_last()), tokens(ls.last()))
    }
}

/// The state after reading the text `s`.
pub open spec fn obj_model(s: Seq<char>) -> ObjModel {
    lines_model(split_lines(s))
}

/// The state after reading the lines `ls` in order, starting from `m`.
pub open spec fn run_lines(m: ObjModel, ls: Seq<Seq<char>>) -> ObjModel
    decreases ls.len(),
{
    if ls.len() == 0 {
        m
    } else {
        step(run_lines(m, ls.drop_last()), tokens(ls.last()))
    }
}

/// The state after reading the text `s`, starting from `m`.
pub open spec fn read_text(m: ObjModel, s: Seq<char>) -> ObjModel {
    run_lines(m, split_lines(s))
}

/// Whether `l` holds no line feed.
pub open spec fn no_newline(l: Seq<char>) -> bool {
    forall|i: int| 0 <= i < l.len() ==> l[i] != '\n'
}

/// Whether `s` is empty or ends a line, so that what follows it starts a new line.
pub open spec fn ends_line(s: Seq<char>) -> bool {
    s.len() == 0 || s.last() == '\n'
}

/// Reading lines from the start is running them from the initial state.
proof fn lemma_lines_model_run(ls: Seq<Seq<char>>)
    ensures
        lines_model(ls) == run_lines(initial_model(), ls),
    decreases ls.len(),
{
    if ls.len() > 0 {
        lemma_lines_model_run(ls.drop_last());
    }
}

/// Running two runs of lines one after the other.
proof fn lemma_run_concat(m: ObjModel, a: Seq<Seq<char>>, b: Seq<Seq<char>>)
    ensures
        run_lines(m, a + b) == run_lines(run_lines(m, a), b),
    decreases b.len(),
{
    if b.len() == 0 {
        assert(a + b =~= a);
    } else {
        assert((a + b).drop_last() =~= a + b.drop_last());
        lemma_run_concat(m, a, b.drop_last());
    }
}

/// Text always splits into at least one line.
proof fn lemma_split_lines_nonempty(s: Seq<char>)
    ensures
        split_lines(s).len() >= 1,
    decreases s.len(),
{
    if s.len() > 0 {
        lemma_split_lines_nonempty(s.drop_last());
    }
}

/// Splitting text that follows a complete line: the lines of the first part, without the empty
/// piece after its last line feed, then the lines of the second.
proof fn lemma_split_lines_concat(a: Seq<char>, b: Seq<char>)
    requires
        ends_line(a),
    ensures
        split_lines(a + b) == split_lines(a).drop_last() + split_lines(b),
    decreases b.len(),
{
    lemma_split_lines_nonempty(a);
    if b.len() == 0 {
        assert(a + b =~= a);
        if a.len() > 0 {
            assert(split_lines(a).last() == Seq::<char>::empty());
        }
        assert(split_lines(a) =~= split_lines(a).drop_last() + split_lines(b));
    } else {
        assert((a + b).drop_last() =~= a + b.drop_last());
        lemma_split_lines_concat(a, b.drop_last());
        lemma_split_lines_nonempty(b.drop_last());
        let d = split_lines(a).drop_last();
        let r = split_lines(b.drop_last());
        if b.last() == '\n' {
            assert(split_lines(a + b) =~= d + r.push(Seq::empty()));
        } else {
            assert((d + r).update((d + r).len() - 1, (d + r).last().push(b.last())) =~= d + r.update(
                r.len() - 1,
                r.last().push(b.last()),
            ));
        }
    }
}

/// Reading text that follows a complete line continues from the state after the first part.
pub proof fn lemma_read_text_concat(m: ObjModel, a: Seq<char>, b: Seq<char>)
    requires
        ends_line(a),
    ensures
        read_text(m, a + b) == read_text(read_text(m, a), b),
{
    lemma_split_lines_concat(a, b);
    lemma_split_lines_nonempty(a);
    let sa = split_lines(a);
    lemma_run_concat(m, sa.drop_last(), split_lines(b));
    if a.len() > 0 {
        assert(sa.last() == Seq::<char>::empty());
    }
    assert(sa.drop_last().push(sa.last()) =~= sa);
    lemma_run_concat(m, sa.drop_last(), seq![sa.last()]);
    assert(sa.drop_last() + seq![sa.last()] =~= sa);
    assert(run_lines(run_lines(m, sa.drop_last()), seq![sa.last()]) == step(
        run_lines(run_lines(m, sa.drop_last()), Seq::empty()),
        tokens(sa.last()),
    ));
}

/// Text without a line feed is one line.
proof fn lemma_split_lines_single(l: Seq<char>)
    requires
        no_newline(l),
    ensures
        split_lines(l) == seq![l],
    decreases l.len(),
{
    if l.len() > 0 {
        lemma_split_lines_single(l.drop_last());
        assert(l[l.len() - 1] != '\n');
        assert(l.drop_last().push(l.last()) =~= l);
        assert(seq![l.drop_last()].update(0, l.drop_last().push(l.last())) =~= seq![l]);
    } else {
        assert(l =~= Seq::<char>::empty());
    }
}

/// Reading one line with its line feed is one step.
pub proof fn lemma_read_line(m: ObjModel, l: Seq<char>)
    requires
        no_newline(l),
    ensures
        read_text(m, l.push('\n')) == step(m, tokens(l)),
{
    lemma_split_lines_single(l);
    assert(l.push('\n').drop_last() =~= l);
    assert(split_lines(l.push('\n')) =~= seq![l, Seq::empty()]);
    assert(seq![l, Seq::<char>::empty()].drop_last() =~= seq![l]);
    assert(seq![l].drop_last() =~= Seq::<Seq<char>>::empty());
    assert(run_lines(m, Seq::<Seq<char>>::empty()) == m);
    assert(seq![l].last() == l);
    assert(run_lines(m, seq![l]) == step(m, tokens(l)));
    assert(run_lines(m, seq![l, Seq::empty()]) == step(run_lines(m, seq![l]), tokens(Seq::empty())));
}

/// The state after reading text from the start.
pub proof fn lemma_obj_model_read(s: Seq<char>)
    ensures
        obj_model(s) == read_text(initial_model(), s),
{
    lemma_lines_model_run(split_lines(s));
}

/// Whether reading the line `l` leaves every state as it is: it is blank, a comment, or its first
/// field is none of `v`, `f`, `g` and `usemtl`.
pub open spec fn ignored_line(l: Seq<char>) -> bool {
    let t = tokens(l);
    ||| t.len() == 0
    ||| t[0][0] == '#'
    ||| !(t[0] == seq!['v'] || t[0] == seq!['f'] || t[0] == seq!['g'] || t[0] == seq![
        'u',
        's',
        'e',
        'm',
        't',
        'l',
    ])
}

/// Inserting a blank, comment or unknown line between two lines of OBJ text does not change what
/// is read.
pub proof fn lemma_ignored_line_inserted(a: Seq<char>, l: Seq<char>, b: Seq<char>)
    requires
        ends_line(a),
        no_newline(l),
        ignored_line(l),
    ensures
        obj_model(a + l.push('\n') + b) == obj_model(a + b),
{
    let m0 = initial_model();
    let ln = l.push('\n');
    lemma_obj_model_read(a + ln + b);
    lemma_obj_model_read(a + b);
    assert(ends_line(a + ln));
    lemma_read_text_concat(m0, a + ln, b);
    lemma_read_text_concat(m0, a, ln);
    lemma_read_line(read_text(m0, a), l);
    lemma_read_text_concat(m0, a, b);
}

/// The lines of `ls` joined, each followed by a line feed.
pub open spec fn join_lines(ls: Seq<Seq<char>>) -> Seq<char>
    decreases ls.len(),
{
    if ls.len() == 0 {
        Seq::empty()
    } else {
        join_lines(ls.drop_last()) + ls.last().push('\n')
    }
}

/// Inserting any number of blank, comment or unknown lines between two lines of OBJ text does
/// not change what is read.
pub proof fn lemma_ignored_lines_inserted(a: Seq<char>, ls: Seq<Seq<char>>, b: Seq<char>)
    requires
        ends_line(a),
        forall|i: int| 0 <= i < ls.len() ==> no_newline(#[trigger] ls[i]) && ignored_line(ls[i]),
    ensures
        obj_model(a + join_lines(ls) + b) == obj_model(a + b),
    decreases ls.len(),
{
    if ls.len() > 0 {
        let init = ls.drop_last();
        let l = ls.last();
        assert(ls[ls.len() - 1] == l);
        assert forall|i: int| 0 <= i < init.len() implies no_newline(#[trigger] init[i]) && ignored_line(
            init[i],
        ) by {
            assert(init[i] == ls[i]);
        }
        let a2 = a + join_lines(init);
        assert(a + join_lines(ls) + b =~= a2 + l.push('\n') + b);
        assert(ends_line(a2)) by {
            if init.len() > 0 {
                let j = join_lines(init);
                assert(j == join_lines(init.drop_last()) + init.last().push('\n'));
                assert(j.last() == '\n');
                assert(a2.last() == j.last());
            } else {
                assert(a2 =~= a);
            }
        }
        lemma_ignored_line_inserted(a2, l, b);
        lemma_ignored_lines_inserted(a, init, b);
    } else {
        assert(a + join_lines(ls) + b =~= a + b);
    }
}

/// Whether reading the line `l` may change the state: it is not blank, not a comment, and starts
/// with `v`, `f`, `g` or `usemtl`.
pub open spec fn kept_line() -> spec_fn(Seq<char>) -> bool {
    |l: Seq<char>| !ignored_line(l)
}

/// Running lines gives the same state as running only those that are not ignored.
proof fn lemma_run_kept_lines(m: ObjModel, ls: Seq<Seq<char>>)
    ensures
        run_lines(m, ls) == run_lines(m, ls.filter(kept_line())),
    decreases ls.len(),
{
    if ls.len() > 0 {
        let init = ls.drop_last();
        lemma_run_kept_lines(m, init);
        assert(init.push(ls.last()) =~= ls);
        init.lemma_filter_push(ls.last(), kept_line());
        let f = init.filter(kept_line());
        if kept_line()(ls.last()) {
            assert(f.push(ls.last()).drop_last() =~= f);
        }
    } else {
        reveal(Seq::filter);
        assert(ls.filter(kept_line()) =~= ls);
    }
}

/// What OBJ text gives depends only on its lines that are not blank, comments or unknown: two
/// texts whose other lines agree, in order, read the same, however many ignored lines either
/// holds and wherever they stand.
pub proof fn lemma_same_kept_lines(s1: Seq<char>, s2: Seq<char>)
    requires
        split_lines(s1).filter(kept_line()) == split_lines(s2).filter(kept_line()),
    ensures
        obj_model(s1) == obj_model(s2),
{
    lemma_obj_model_read(s1);
    lemma_obj_model_read(s2);
    lemma_run_kept_lines(initial_model(), split_lines(s1));
    lemma_run_kept_lines(initial_model(), split_lines(s2));
}

/// The characters of `data`, in order.
fn chars_of(data: &str) -> (v: Vec<char>)
    ensures
        v@ == data@,
{
    let mut v: Vec<char> = Vec::new();
    for c in it: data.chars()
        invariant
            it.seq() == data@,
            v@ == it.seq().take(it.index() as int),
    {
        v.push(c);
    }
    v
}


/// Every field of a line holds at least one character.
proof fn lemma_tokens_nonempty(line: Seq<char>)
    ensures
        forall|i: int| 0 <= i < tokens(line).len() ==> (#[trigger] tokens(line)[i]).len() > 0,
        line.len() > 0 && !is_ws(line.last()) ==> tokens(line).len() > 0,
    decreases line.len(),
{
    if line.len() > 0 {
        let s = line.drop_last();
        lemma_tokens_nonempty(s);
        if line.len() >= 2 {
            assert(s.last() == line[line.len() - 2]);
        }
        let t = tokens(s);
        assert forall|i: int| 0 <= i < tokens(line).len() implies (#[trigger] tokens(line)[i]).len() > 0 by {
            if i < t.len() && !is_ws(line.last()) && line.len() >= 2 && !is_ws(line[line.len() - 2]) && i == t.len() - 1 {
                assert(tokens(line)[i] == t[i].push(line.last()));
            }
        }
    }
}

/// Whether `c` separates fields.
fn is_ws_char(c: char) -> (b: bool)
    ensures
        b == is_ws(c),
{
    let n = c as u32;
    (9 <= n && n <= 13) || n == 32 || n == 0x85 || n == 0xA0 || n == 0x1680 || (0x2000 <= n && n
        <= 0x200A) || n == 0x2028 || n == 0x2029 || n == 0x202F || n == 0x205F || n == 0x3000
}

/// The texts of the character vectors of `v`.
pub open spec fn char_texts(v: Seq<Vec<char>>) -> Seq<Seq<char>> {
    v.map_values(|t: Vec<char>| t@)
}

/// Splits a line into its fields.
fn tokenize(line: &Vec<char>) -> (toks: Vec<Vec<char>>)
    ensures
        char_texts(toks@) == tokens(line@),
{
    let mut done: Vec<Vec<char>> = Vec::new();
    let mut cur: Vec<char> = Vec::new();
    let mut in_token = false;
    let mut i: usize = 0;
    while i < line.len()
        invariant
            i <= line@.len(),
            in_token == (i > 0 && !is_ws(line@[i - 1])),
            in_token ==> tokens(line@.take(i as int)) == char_texts(done@).push(cur@),
            !in_token ==> tokens(line@.take(i as int)) == char_texts(done@),
            !in_token ==> cur@ == Seq::<char>::empty(),
        decreases line@.len() - i,
    {
        let c = line[i];
        let ghost prev = line@.take(i as int);
        assert(line@.take(i + 1).drop_last() =~= prev);
        assert(line@.take(i + 1).last() == c);
        if is_ws_char(c) {
            if in_token {
                let ghost before = done@;
                done.push(cur);
                cur = Vec::new();
                proof {
                    before.lemma_push_map_commute(|t: Vec<char>| t@, done@.last());
                }
            }
            in_token = false;
        } else {
            if in_token {
                let ghost old_cur = cur@;
                cur.push(c);
                assert(char_texts(done@).push(old_cur).update(char_texts(done@).len() as int, old_cur.push(c))
                    =~= char_texts(done@).push(cur@));
            } else {
                cur.push(c);
                assert(cur@ =~= seq![c]);
            }
            in_token = true;
        }
        i = i + 1;
    }
    assert(line@.take(i as int) =~= line@);
    if in_token {
        let ghost before = done@;
        done.push(cur);
        proof {
            before.lemma_push_map_commute(|t: Vec<char>| t@, done@.last());
        }
    }
    done
}


/// The part of `t` before its first `/`, or all of `t`.
fn prefix_before_slash(t: &Vec<char>) -> (p: Vec<char>)
    ensures
        p@ == before_slash(t@),
{
    let mut p: Vec<char> = Vec::new();
    let mut i: usize = 0;
    let mut stop = false;
    assert(t@.skip(0) =~= t@);
    assert(p@ =~= t@.take(0));
    while i < t.len() && !stop
        invariant
            i <= t@.len(),
            stop ==> i < t@.len() && t@[i as int] == '/',
            p@ == t@.take(i as int),
            before_slash(t@) == p@ + before_slash(t@.skip(i as int)),
        decreases t@.len() - i + if stop { 0int } else { 1int },
    {
        let ghost rest = t@.skip(i as int);
        assert(rest[0] == t@[i as int]);
        if t[i] == '/' {
            stop = true;
        } else {
            assert(rest.drop_first() =~= t@.skip(i + 1));
            p.push(t[i]);
            i = i + 1;
            assert(p@ =~= t@.take(i as int));
            assert(before_slash(t@) =~= p@ + before_slash(t@.skip(i as int)));
        }
    }
    if stop {
        assert(before_slash(t@.skip(i as int)) =~= Seq::<char>::empty());
    } else {
        assert(t@.skip(i as int) =~= Seq::<char>::empty());
    }
    assert(before_slash(t@) =~= p@);
    p
}

/// A prefix of a digit string never has a larger value than the whole string.
proof fn lemma_digits_value_prefix(d: Seq<char>, k: int)
    requires
        0 <= k <= d.len(),
        all_digits(d),
    ensures
        digits_value(d.take(k)) <= digits_value(d),
        0 <= digits_value(d.take(k)),
    decreases d.len() - k,
{
    if k < d.len() {
        lemma_digits_value_prefix(d, k + 1);
        assert(d.take(k + 1).drop_last() =~= d.take(k));
        assert('0' <= d[k] <= '9');
        lemma_digits_value_nonneg(d.take(k));
    } else {
        assert(d.take(k) =~= d);
        lemma_digits_value_nonneg(d);
    }
}

/// A digit string has a non-negative value.
proof fn lemma_digits_value_nonneg(d: Seq<char>)
    requires
        all_digits(d),
    ensures
        0 <= digits_value(d),
    decreases d.len(),
{
    if d.len() > 0 {
        assert(all_digits(d.drop_last())) by {
            assert forall|i: int| 0 <= i < d.drop_last().len() implies '0' <= #[trigger] d.drop_last()[i] <= '9' by {
                assert(d.drop_last()[i] == d[i]);
            }
        }
        lemma_digits_value_nonneg(d.drop_last());
        assert('0' <= d[d.len() - 1] <= '9');
    }
}

/// Reads an unsigned machine integer from `s` as the standard library does.
fn parse_usize(s: &Vec<char>) -> (r: Option<usize>)
    ensures
        r == parse_usize_spec(s@),
{
    let ghost d = digit_part(s@);
    let start: usize = if s.len() > 0 && s[0] == '+' { 1 } else { 0 };
    assert(d =~= s@.skip(start as int));
    if start >= s.len() {
        return None;
    }
    let mut value: usize = 0;
    let mut i: usize = start;
    while i < s.len()
        invariant
            start <= i <= s@.len(),
            d == s@.skip(start as int),
            d == digit_part(s@),
            forall|j: int| 0 <= j < i - start ==> '0' <= #[trigger] d[j] <= '9',
            value == digits_value(d.take(i - start)),
        decreases s@.len() - i,
    {
        let c = s[i];
        assert(d[i - start] == c);
        if !('0' <= c && c <= '9') {
            assert(!all_digits(d));
            return None;
        }
        let digit = (c as u32 - '0' as u32) as usize;
        assert(d.take(i - start + 1).drop_last() =~= d.take(i - start));
        if value > (usize::MAX - digit) / 10 {
            proof {
                assert(digits_value(d.take(i - start + 1)) > usize::MAX) by (nonlinear_arith)
                    requires
                        digits_value(d.take(i - start + 1)) == value * 10 + digit,
                        value > (usize::MAX - digit) / 10,
                        0 <= digit <= 9,
                ;
                if all_digits(d) {
                    lemma_digits_value_prefix(d, i - start + 1);
                }
            }
            return None;
        }
        assert(value * 10 + digit <= usize::MAX) by (nonlinear_arith)
            requires
                value <= (usize::MAX - digit) / 10,
                0 <= digit <= 9,
        ;
        value = value * 10 + digit;
        i = i + 1;
    }
    assert(d.take(i - start) =~= d);
    Some(value)
}

/// The zero-based vertex index of a face field.
fn face_field_index(t: &Vec<char>) -> (r: Option<usize>)
    ensures
        r == face_index(t@),
{
    let p = prefix_before_slash(t);
    match parse_usize(&p) {
        Some(v) => Some(v.saturating_sub(1)),
        None => None,
    }
}


/// The text of the three coordinate fields of a vertex record.
pub struct VertexFields {
    pub x: Vec<char>,
    pub y: Vec<char>,
    pub z: Vec<char>,
}

/// The name of a face group and the positions of its faces in the face list.
pub struct FaceGroup {
    pub name: Vec<char>,
    pub faces: Vec<usize>,
}

/// What `scan_obj` found: the vertex records and faces read before the first error, the groups
/// of those faces by first appearance of their names, and that error, if any.
pub struct ObjScan {
    pub vertices: Vec<VertexFields>,
    pub faces: Vec<[usize; 3]>,
    pub groups: Vec<FaceGroup>,
    pub error: Option<String>,
}

/// The coordinate texts of the vertex records `v`.
pub open spec fn vertex_views(v: Seq<VertexFields>) -> Seq<(Seq<char>, Seq<char>, Seq<char>)> {
    v.map_values(|f: VertexFields| (f.x@, f.y@, f.z@))
}

/// The vertex indices of the faces `v`.
pub open spec fn face_views(v: Seq<[usize; 3]>) -> Seq<Seq<usize>> {
    v.map_values(|f: [usize; 3]| f@)
}

/// The names and face positions of the groups `v`.
pub open spec fn group_views(v: Seq<FaceGroup>) -> Seq<(Seq<char>, Seq<usize>)> {
    v.map_values(|g: FaceGroup| (g.name@, g.faces@))
}

/// The text of an optional error message.
pub open spec fn error_view(e: Option<String>) -> Option<Seq<char>> {
    match e {
        Some(s) => Some(s@),
        None => None,
    }
}

/// `sc` together with the current group name `current` holds the state `m`.
pub open spec fn scan_holds(sc: ObjScan, current: Seq<char>, m: ObjModel) -> bool {
    &&& vertex_views(sc.vertices@) == m.vertices
    &&& face_views(sc.faces@) == m.faces
    &&& group_views(sc.groups@) == m.groups
    &&& current == m.current
    &&& error_view(sc.error) == m.error
}

/// Whether `a` and `b` hold the same characters.
fn same_chars(a: &Vec<char>, b: &Vec<char>) -> (r: bool)
    ensures
        r == (a@ == b@),
{
    if a.len() != b.len() {
        return false;
    }
    let mut i: usize = 0;
    while i < a.len()
        invariant
            a@.len() == b@.len(),
            i <= a@.len(),
            forall|j: int| 0 <= j < i ==> a@[j] == b@[j],
        decreases a@.len() - i,
    {
        if a[i] != b[i] {
            return false;
        }
        i = i + 1;
    }
    assert(a@ =~= b@);
    true
}

/// A copy of `a`.
fn copy_chars(a: &Vec<char>) -> (r: Vec<char>)
    ensures
        r@ == a@,
{
    let mut r: Vec<char> = Vec::new();
    let mut i: usize = 0;
    while i < a.len()
        invariant
            i <= a@.len(),
            r@ == a@.take(i as int),
        decreases a@.len() - i,
    {
        r.push(a[i]);
        i = i + 1;
        assert(r@ =~= a@.take(i as int));
    }
    assert(a@.take(i as int) =~= a@);
    r
}

/// Whether `t` is the one-character field `c`.
fn is_field(t: &Vec<char>, c: char) -> (r: bool)
    ensures
        r == (t@ == seq![c]),
{
    let r = t.len() == 1 && t[0] == c;
    assert(r ==> t@ =~= seq![c]);
    r
}

/// Whether `t` is the field `usemtl`.
fn is_usemtl(t: &Vec<char>) -> (r: bool)
    ensures
        r == (t@ == seq!['u', 's', 'e', 'm', 't', 'l']),
{
    let r = t.len() == 6 && t[0] == 'u' && t[1] == 's' && t[2] == 'e' && t[3] == 'm' && t[4] == 't'
        && t[5] == 'l';
    assert(r ==> t@ =~= seq!['u', 's', 'e', 'm', 't', 'l']);
    r
}

/// The position of the first group named `name`, if any.
fn find_group(groups: &Vec<FaceGroup>, name: &Vec<char>) -> (r: Option<usize>)
    ensures
        match r {
            Some(p) => group_position(group_views(groups@), name@) == p,
            None => group_position(group_views(groups@), name@) == -1,
        },
{
    let ghost gs = group_views(groups@);
    let mut i: usize = 0;
    while i < groups.len()
        invariant
            gs == group_views(groups@),
            i <= gs.len(),
            group_position(gs.take(i as int), name@) == -1,
        decreases gs.len() - i,
    {
        assert(gs.take(i + 1).drop_last() =~= gs.take(i as int));
        if same_chars(&groups[i].name, name) {
            proof {
                lemma_group_position_prefix(gs, i + 1, name@);
            }
            return Some(i);
        }
        i = i + 1;
    }
    assert(gs.take(i as int) =~= gs);
    None
}

/// The first position of a name is decided by any prefix that already holds it.
proof fn lemma_group_position_prefix(gs: Seq<(Seq<char>, Seq<usize>)>, k: int, name: Seq<char>)
    requires
        0 <= k <= gs.len(),
        group_position(gs.take(k), name) >= 0,
    ensures
        group_position(gs, name) == group_position(gs.take(k), name),
    decreases gs.len() - k,
{
    if k < gs.len() {
        assert(gs.take(k + 1).drop_last() =~= gs.take(k));
        lemma_group_position_prefix(gs, k + 1, name);
    } else {
        assert(gs.take(k) =~= gs);
    }
}

/// A group position, when there is one, lies inside the sequence and names that group.
proof fn lemma_group_position_valid(gs: Seq<(Seq<char>, Seq<usize>)>, name: Seq<char>)
    ensures
        -1 <= group_position(gs, name) < gs.len(),
        group_position(gs, name) >= 0 ==> gs[group_position(gs, name)].0 == name,
    decreases gs.len(),
{
    if gs.len() > 0 {
        lemma_group_position_valid(gs.drop_last(), name);
    }
}


/// Adds face `f` to the group named `current`, creating the group after the others when new.
fn add_face_to_group(groups: &mut Vec<FaceGroup>, current: &Vec<char>, f: usize)
    ensures
        group_views(final(groups)@) == add_to_group(group_views(old(groups)@), current@, f),
{
    let ghost gs = group_views(groups@);
    proof {
        lemma_group_position_valid(gs, current@);
    }
    match find_group(groups, current) {
        Some(p) => {
            let mut g = groups.remove(p);
            g.faces.push(f);
            groups.insert(p, g);
            assert(group_views(groups@) =~= gs.update(p as int, (current@, gs[p as int].1.push(f))));
        },
        None => {
            let mut faces: Vec<usize> = Vec::new();
            faces.push(f);
            let g = FaceGroup { name: copy_chars(current), faces };
            groups.push(g);
            assert(group_views(groups@) =~= gs.push((current@, seq![f])));
        },
    }
}

/// Reads one line of OBJ text into the state held by `sc` and `current`.
fn read_line(sc: &mut ObjScan, current: &mut Vec<char>, line: &Vec<char>, Ghost(m): Ghost<ObjModel>)
    requires
        scan_holds(*old(sc), old(current)@, m),
    ensures
        scan_holds(*final(sc), final(current)@, step(m, tokens(line@))),
{
    let toks = tokenize(line);
    let ghost ts = tokens(line@);
    proof {
        lemma_tokens_nonempty(line@);
        assert forall|i: int| 0 <= i < toks@.len() implies #[trigger] toks@[i]@ == ts[i] by {
            assert(char_texts(toks@)[i] == toks@[i]@);
        }
    }
    if sc.error.is_some() || toks.len() == 0 {
        return;
    }
    assert(toks@[0]@.len() > 0);
    if toks[0][0] == '#' {
        return;
    }
    if is_field(&toks[0], 'v') {
        if toks.len() < 4 {
            sc.error = Some(String::from_str("Invalid vertex format"));
            return;
        }
        let fields = VertexFields {
            x: copy_chars(&toks[1]),
            y: copy_chars(&toks[2]),
            z: copy_chars(&toks[3]),
        };
        let ghost before = sc.vertices@;
        sc.vertices.push(fields);
        assert(vertex_views(sc.vertices@) =~= vertex_views(before).push((ts[1], ts[2], ts[3])));
    } else if is_field(&toks[0], 'f') {
        if toks.len() < 4 {
            sc.error = Some(String::from_str("Invalid face format"));
            return;
        }
        let a = face_field_index(&toks[1]);
        let b = face_field_index(&toks[2]);
        let c = face_field_index(&toks[3]);
        match (a, b, c) {
            (Some(a), Some(b), Some(c)) => {
                let face_idx = sc.faces.len();
                let ghost before = sc.faces@;
                let face = [a, b, c];
                sc.faces.push(face);
                assert(face@ =~= seq![a, b, c]);
                assert(face_views(sc.faces@) =~= face_views(before).push(seq![a, b, c]));
                add_face_to_group(&mut sc.groups, current, face_idx);
            },
            _ => {
                sc.error = Some(String::from_str("Failed to parse face index"));
            },
        }
    } else if is_field(&toks[0], 'g') || is_usemtl(&toks[0]) {
        if toks.len() > 1 {
            *current = copy_chars(&toks[1]);
        }
    }
}

/// `r` holds the vertex records, faces, groups and error of the state `m`.
pub open spec fn scan_result_matches(r: ObjScan, m: ObjModel) -> bool {
    &&& vertex_views(r.vertices@) == m.vertices
    &&& face_views(r.faces@) == m.faces
    &&& group_views(r.groups@) == m.groups
    &&& error_view(r.error) == m.error
}

/// Reads OBJ text line by line. Blank lines and comments are skipped. A `v` line gives a
/// vertex record of its three coordinate fields; an `f` line gives a face of three zero-based
/// vertex indices (each field's number before any `/`, lowered by one) and adds it to the
/// current group; `g` and `usemtl` lines name the current group, at first `default`. Reading
/// stops at the first `v` or `f` line with fewer than three fields, or at the first face field
/// that is not a vertex number; that error is returned with what was read before it.
pub fn scan_obj(data: &str) -> (r: ObjScan)
    ensures
        scan_result_matches(r, obj_model(data@)),
{
    let chars = chars_of(data);
    let mut sc = ObjScan { vertices: Vec::new(), faces: Vec::new(), groups: Vec::new(), error: None };
    let mut current: Vec<char> = vec!['d', 'e', 'f', 'a', 'u', 'l', 't'];
    let mut line: Vec<char> = Vec::new();
    let ghost mut done: Seq<Seq<char>> = Seq::empty();
    assert(chars@.take(0) =~= Seq::<char>::empty());
    assert(sc.vertices@.map_values(|f: VertexFields| (f.x@, f.y@, f.z@)) =~= Seq::<(Seq<char>, Seq<char>, Seq<char>)>::empty());
    assert(face_views(sc.faces@) =~= Seq::<Seq<usize>>::empty());
    assert(group_views(sc.groups@) =~= Seq::<(Seq<char>, Seq<usize>)>::empty());
    assert(current@ =~= seq!['d', 'e', 'f', 'a', 'u', 'l', 't']);
    assert(split_lines(Seq::<char>::empty()) =~= done.push(line@));
    let mut i: usize = 0;
    while i < chars.len()
        invariant
            i <= chars@.len(),
            split_lines(chars@.take(i as int)) == done.push(line@),
            scan_holds(sc, current@, lines_model(done)),
        decreases chars@.len() - i,
    {
        let c = chars[i];
        assert(chars@.take(i + 1).drop_last() =~= chars@.take(i as int));
        if c == '\n' {
            let ghost m = lines_model(done);
            if sc.error.is_none() {
                read_line(&mut sc, &mut current, &line, Ghost(m));
            }
            proof {
                assert(done.push(line@).drop_last() =~= done);
                done = done.push(line@);
            }
            line = Vec::new();
            assert(split_lines(chars@.take(i + 1)) =~= done.push(line@));
        } else {
            let ghost old_line = line@;
            line.push(c);
            assert(done.push(old_line).update(done.len() as int, old_line.push(c)) =~= done.push(line@));
        }
        i = i + 1;
    }
    assert(chars@.take(i as int) =~= chars@);
    let ghost m = lines_model(done);
    if sc.error.is_none() {
        read_line(&mut sc, &mut current, &line, Ghost(m));
    }
    proof {
        assert(done.push(line@).drop_last() =~= done);
    }
    sc
}


/// How many faces the groups `gs` list together.
pub open spec fn listed_faces(gs: Seq<(Seq<char>, Seq<usize>)>) -> nat
    decreases gs.len(),
{
    if gs.len() == 0 {
        0
    } else {
        listed_faces(gs.drop_last()) + gs.last().1.len()
    }
}

/// Whether some group of `gs` lists face `f`.
pub open spec fn face_listed(gs: Seq<(Seq<char>, Seq<usize>)>, f: int) -> bool {
    exists|k: int, j: int| 0 <= k < gs.len() && 0 <= j < gs[k].1.len() && #[trigger] gs[k].1[j] == f
}

/// The groups `gs` list each of the faces `0..n` exactly once and nothing else, and no two
/// groups share a name.
pub open spec fn partitions(gs: Seq<(Seq<char>, Seq<usize>)>, n: nat) -> bool {
    &&& listed_faces(gs) == n
    &&& forall|k: int, j: int|
        0 <= k < gs.len() && 0 <= j < gs[k].1.len() ==> #[trigger] gs[k].1[j] < n
    &&& forall|f: int| 0 <= f < n ==> #[trigger] face_listed(gs, f)
    &&& forall|k1: int, k2: int| 0 <= k1 < k2 < gs.len() ==> (#[trigger] gs[k1]).0 != (#[trigger] gs[k2]).0
}

/// The groups of `m` list every face of `m` and nothing else, and no two groups share a name.
pub open spec fn groups_partition_faces(m: ObjModel) -> bool {
    partitions(m.groups, m.faces.len())
}

/// Adding one face to one group lists one more face.
proof fn lemma_listed_faces_update(gs: Seq<(Seq<char>, Seq<usize>)>, p: int, g: (Seq<char>, Seq<usize>))
    requires
        0 <= p < gs.len(),
        g.1.len() == gs[p].1.len() + 1,
    ensures
        listed_faces(gs.update(p, g)) == listed_faces(gs) + 1,
    decreases gs.len(),
{
    if p == gs.len() - 1 {
        assert(gs.update(p, g).drop_last() =~= gs.drop_last());
    } else {
        lemma_listed_faces_update(gs.drop_last(), p, g);
        assert(gs.update(p, g).drop_last() =~= gs.drop_last().update(p, g));
    }
}

/// A name without a group position names no group.
proof fn lemma_group_position_absent(gs: Seq<(Seq<char>, Seq<usize>)>, name: Seq<char>)
    requires
        group_position(gs, name) == -1,
    ensures
        forall|k: int| 0 <= k < gs.len() ==> (#[trigger] gs[k]).0 != name,
    decreases gs.len(),
{
    if gs.len() > 0 {
        lemma_group_position_absent(gs.drop_last(), name);
        assert forall|k: int| 0 <= k < gs.len() implies (#[trigger] gs[k]).0 != name by {
            if k < gs.len() - 1 {
                assert(gs[k] == gs.drop_last()[k]);
            }
        }
    }
}

/// Adding the next face to an existing group keeps a partition.
proof fn lemma_add_to_existing_group(gs: Seq<(Seq<char>, Seq<usize>)>, name: Seq<char>, n: nat)
    requires
        partitions(gs, n),
        n < usize::MAX,
        0 <= group_position(gs, name) < gs.len(),
        gs[group_position(gs, name)].0 == name,
    ensures
        partitions(add_to_group(gs, name, n as usize), n + 1),
{
    let f = n as usize;
    let p = group_position(gs, name);
    let g = (name, gs[p].1.push(f));
    let ng = add_to_group(gs, name, f);
    assert(ng == gs.update(p, g));
    lemma_listed_faces_update(gs, p, g);
    assert forall|ff: int| 0 <= ff < n + 1 implies #[trigger] face_listed(ng, ff) by {
        if ff == f {
            assert(ng[p].1[gs[p].1.len() as int] == ff);
        } else {
            assert(face_listed(gs, ff));
            let (k, j) = choose|k: int, j: int|
                0 <= k < gs.len() && 0 <= j < gs[k].1.len() && #[trigger] gs[k].1[j] == ff;
            assert(ng[k].1[j] == ff);
        }
    }
    assert forall|k: int, j: int|
        0 <= k < ng.len() && 0 <= j < ng[k].1.len() implies #[trigger] ng[k].1[j] < n + 1 by {
        if k != p || j < gs[p].1.len() {
            assert(ng[k].1[j] == gs[k].1[j]);
        }
    }
    assert forall|k1: int, k2: int| 0 <= k1 < k2 < ng.len() implies (#[trigger] ng[k1]).0 != (
    #[trigger] ng[k2]).0 by {
        assert(ng[k1].0 == gs[k1].0);
        assert(ng[k2].0 == gs[k2].0);
    }
}

/// Adding the next face as a new group, after the others, keeps a partition.
proof fn lemma_add_to_new_group(gs: Seq<(Seq<char>, Seq<usize>)>, name: Seq<char>, n: nat)
    requires
        partitions(gs, n),
        n < usize::MAX,
        group_position(gs, name) == -1,
    ensures
        partitions(add_to_group(gs, name, n as usize), n + 1),
{
    let f = n as usize;
    lemma_group_position_absent(gs, name);
    let ng = add_to_group(gs, name, f);
    assert(ng == gs.push((name, seq![f])));
    assert(ng.drop_last() =~= gs);
    assert forall|ff: int| 0 <= ff < n + 1 implies #[trigger] face_listed(ng, ff) by {
        if ff == f {
            assert(ng[gs.len() as int].1[0] == ff);
        } else {
            assert(face_listed(gs, ff));
            let (k, j) = choose|k: int, j: int|
                0 <= k < gs.len() && 0 <= j < gs[k].1.len() && #[trigger] gs[k].1[j] == ff;
            assert(ng[k].1[j] == ff);
        }
    }
    assert forall|k: int, j: int|
        0 <= k < ng.len() && 0 <= j < ng[k].1.len() implies #[trigger] ng[k].1[j] < n + 1 by {
        if k < gs.len() {
            assert(ng[k] == gs[k]);
        }
    }
    assert forall|k1: int, k2: int| 0 <= k1 < k2 < ng.len() implies (#[trigger] ng[k1]).0 != (
    #[trigger] ng[k2]).0 by {
        assert(ng[k1] == gs[k1]);
        if k2 < gs.len() {
            assert(ng[k2] == gs[k2]);
        }
    }
}

/// Reading a line keeps the groups a partition of the faces.
proof fn lemma_step_keeps_partition(m: ObjModel, toks: Seq<Seq<char>>)
    requires
        groups_partition_faces(m),
        m.faces.len() < usize::MAX,
    ensures
        groups_partition_faces(step(m, toks)),
        step(m, toks).faces.len() <= m.faces.len() + 1,
{
    let n = step(m, toks);
    if n.faces.len() == m.faces.len() + 1 {
        assert(n.groups == add_to_group(m.groups, m.current, m.faces.len() as usize));
        lemma_group_position_valid(m.groups, m.current);
        if group_position(m.groups, m.current) >= 0 {
            lemma_add_to_existing_group(m.groups, m.current, m.faces.len());
        } else {
            lemma_add_to_new_group(m.groups, m.current, m.faces.len());
        }
    } else {
        assert(n.faces == m.faces && n.groups == m.groups);
    }
}

/// The groups of the state after any lines list every face exactly once: together they list as
/// many faces as there are, every face is listed, every listed index names a face, and no two
/// groups share a name.
pub proof fn lemma_obj_groups_partition_faces(ls: Seq<Seq<char>>)
    requires
        ls.len() <= usize::MAX,
    ensures
        groups_partition_faces(lines_model(ls)),
        lines_model(ls).faces.len() <= ls.len(),
    decreases ls.len(),
{
    if ls.len() > 0 {
        lemma_obj_groups_partition_faces(ls.drop_last());
        lemma_step_keeps_partition(lines_model(ls.drop_last()), tokens(ls.last()));
    }
}

} // verus!
