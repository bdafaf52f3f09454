//! Reading back the OBJ text written for a collision model: the reader finds three vertices and
//! one face per prism, the faces numbered in the order they were written, and one group per
//! surface class.
use vstd::prelude::*;
use crate::kcl::{
    face_line, faces_text, group_obj_text, obj_text, face_total, spec_material_groups,
    lemma_groups_cover_prisms, lemma_groups_ordered, lemma_names_distinct, nonempty_group,
    group_for, BaseType, Prism,
};
use crate::obj::{
    add_to_group, all_digits, before_slash, digit_part, digits_value, face_index, group_position,
    is_ws, no_newline, parse_usize_spec, read_text, ends_line, step, tokens, split_lines,
    run_lines, initial_model, obj_model, lemma_read_text_concat, lemma_read_line,
    lemma_obj_model_read, ObjModel,
};
use crate::text::{decimal, digit_char};

verus! {

/// Whether `w` is one field: non-empty and without white space.
pub open spec fn is_word(w: Seq<char>) -> bool {
    &&& w.len() > 0
    &&& forall|i: int| 0 <= i < w.len() ==> !is_ws(#[trigger] w[i])
}

/// A word is read as one field.
proof fn lemma_tokens_word(w: Seq<char>)
    requires
        is_word(w),
    ensures
        tokens(w) == seq![w],
    decreases w.len(),
{
    if w.len() == 1 {
        assert(w.drop_last() =~= Seq::<char>::empty());
        assert(tokens(w.drop_last()) == Seq::<Seq<char>>::empty());
        assert(!is_ws(w[0]));
        assert(seq![w.last()] =~= w);
    } else {
        let v = w.drop_last();
        assert(is_word(v)) by {
            assert forall|i: int| 0 <= i < v.len() implies !is_ws(#[trigger] v[i]) by {
                assert(v[i] == w[i]);
            }
        }
        lemma_tokens_word(v);
        assert(!is_ws(w[w.len() - 1]));
        assert(!is_ws(w[w.len() - 2]));
        assert(v.push(w.last()) =~= w);
        assert(seq![v].update(0, v.push(w.last())) =~= seq![w]);
    }
}

/// A word after white space is read as one more field.
proof fn lemma_tokens_after_ws(p: Seq<char>, w: Seq<char>)
    requires
        p.len() > 0,
        is_ws(p.last()),
        is_word(w),
    ensures
        tokens(p + w) == tokens(p).push(w),
    decreases w.len(),
{
    let s = p + w;
    assert(s.drop_last() =~= p + w.drop_last());
    assert(s.last() == w.last());
    assert(!is_ws(w[w.len() - 1]));
    if w.len() == 1 {
        assert(p + w.drop_last() =~= p);
        assert(s[s.len() - 2] == p.last());
        assert(seq![w.last()] =~= w);
    } else {
        let v = w.drop_last();
        assert(is_word(v)) by {
            assert forall|i: int| 0 <= i < v.len() implies !is_ws(#[trigger] v[i]) by {
                assert(v[i] == w[i]);
            }
        }
        lemma_tokens_after_ws(p, v);
        assert(s[s.len() - 2] == w[w.len() - 2]);
        assert(!is_ws(w[w.len() - 2]));
        assert(v.push(w.last()) =~= w);
        assert(tokens(p).push(v).update(tokens(p).len() as int, v.push(w.last())) =~= tokens(p).push(w));
    }
}

/// A trailing space adds no field.
proof fn lemma_tokens_space(p: Seq<char>)
    ensures
        tokens(p.push(' ')) == tokens(p),
{
    assert(p.push(' ').drop_last() =~= p);
}

/// The value of a decimal digit.
proof fn lemma_digit_char(d: nat)
    requires
        d < 10,
    ensures
        '0' <= digit_char(d) <= '9',
        digit_char(d) as int - '0' as int == d,
{
}

/// The decimal text of `n` is a non-empty run of digits whose value is `n`.
proof fn lemma_decimal_digits(n: nat)
    ensures
        decimal(n).len() > 0,
        all_digits(decimal(n)),
        digits_value(decimal(n)) == n,
    decreases n,
{
    if n < 10 {
        lemma_digit_char(n);
        assert(decimal(n).drop_last() =~= Seq::<char>::empty());
        assert(digits_value(decimal(n).drop_last()) == 0);
    } else {
        lemma_decimal_digits(n / 10);
        lemma_digit_char(n % 10);
        let d = decimal(n);
        assert(d.drop_last() =~= decimal(n / 10));
        assert forall|i: int| 0 <= i < d.len() implies '0' <= #[trigger] d[i] <= '9' by {
            if i < d.len() - 1 {
                assert(d[i] == decimal(n / 10)[i]);
            }
        }
        assert(digits_value(d) == digits_value(decimal(n / 10)) * 10 + (digit_char(n % 10) as int
            - '0' as int));
    }
}

/// A run of digits is a word.
proof fn lemma_digits_word(d: Seq<char>)
    requires
        d.len() > 0,
        all_digits(d),
    ensures
        is_word(d),
        no_newline(d),
        d[0] != '#' && d[0] != '+',
{
    assert forall|i: int| 0 <= i < d.len() implies !is_ws(#[trigger] d[i]) by {
        assert('0' <= d[i] <= '9');
    }
    assert forall|i: int| 0 <= i < d.len() implies d[i] != '\n' by {
        assert('0' <= d[i] <= '9');
    }
    assert('0' <= d[0] <= '9');
}

/// Text without a slash is its own part before the first slash.
proof fn lemma_before_slash_none(t: Seq<char>)
    requires
        forall|i: int| 0 <= i < t.len() ==> t[i] != '/',
    ensures
        before_slash(t) == t,
    decreases t.len(),
{
    if t.len() > 0 {
        assert forall|i: int| 0 <= i < t.drop_first().len() implies t.drop_first()[i] != '/' by {
            assert(t.drop_first()[i] == t[i + 1]);
        }
        lemma_before_slash_none(t.drop_first());
        assert(seq![t[0]] + t.drop_first() =~= t);
    }
}

/// The face field written as the decimal number `x` names vertex `x - 1`.
proof fn lemma_face_index_decimal(x: nat)
    requires
        1 <= x <= usize::MAX,
    ensures
        face_index(decimal(x)) == Some((x - 1) as usize),
{
    lemma_decimal_digits(x);
    let d = decimal(x);
    lemma_digits_word(d);
    assert forall|i: int| 0 <= i < d.len() implies d[i] != '/' by {
        assert('0' <= d[i] <= '9');
    }
    lemma_before_slash_none(d);
    assert(digit_part(d) == d);
    assert(parse_usize_spec(d) == Some(x as usize));
}

/// Whether `c` may appear in a material name: a lowercase ASCII letter, a digit or `_`.
pub open spec fn is_name_char(c: char) -> bool {
    ('a' <= c <= 'z') || ('0' <= c <= '9') || c == '_'
}

/// Every material name is a non-empty run of lowercase letters, digits and underscores.
pub proof fn lemma_name_chars(b: BaseType)
    ensures
        b.spec_name().len() > 0,
        forall|i: int| 0 <= i < b.spec_name().len() ==> is_name_char(#[trigger] b.spec_name()[i]),
{
    match b {
        BaseType::Road => {
            reveal_strlit("road");
        },
        BaseType::SlipperyRoad1 => {
            reveal_strlit("slippery_road1");
        },
        BaseType::WeakOffroad => {
            reveal_strlit("weak_offroad");
        },
        BaseType::Offroad => {
            reveal_strlit("offroad");
        },
        BaseType::HeavyOffroad => {
            reveal_strlit("heavy_offroad");
        },
        BaseType::SlipperyRoad2 => {
            reveal_strlit("slippery_road2");
        },
        BaseType::BoostPanel => {
            reveal_strlit("boost_panel");
        },
        BaseType::BoostRamp => {
            reveal_strlit("boost_ramp");
        },
        BaseType::JumpPad => {
            reveal_strlit("jump_pad");
        },
        BaseType::ItemRoad => {
            reveal_strlit("item_road");
        },
        BaseType::SolidFall => {
            reveal_strlit("solid_fall");
        },
        BaseType::MovingWater => {
            reveal_strlit("moving_water");
        },
        BaseType::Wall => {
            reveal_strlit("wall");
        },
        BaseType::InvisibleWall => {
            reveal_strlit("invisible_wall");
        },
        BaseType::ItemWall => {
            reveal_strlit("item_wall");
        },
        BaseType::Wall2 => {
            reveal_strlit("wall2");
        },
        BaseType::FallBoundary => {
            reveal_strlit("fall_boundary");
        },
        BaseType::CannonTrigger => {
            reveal_strlit("cannon_trigger");
        },
        BaseType::ForceRecalculation => {
            reveal_strlit("force_recalc");
        },
        BaseType::HalfPipeRamp => {
            reveal_strlit("halfpipe_ramp");
        },
        BaseType::PlayerOnlyWall => {
            reveal_strlit("player_wall");
        },
        BaseType::MovingRoad => {
            reveal_strlit("moving_road");
        },
        BaseType::StickyRoad => {
            reveal_strlit("sticky_road");
        },
        BaseType::Road2 => {
            reveal_strlit("road2");
        },
        BaseType::SoundTrigger => {
            reveal_strlit("sound_trigger");
        },
        BaseType::WeakWall => {
            reveal_strlit("weak_wall");
        },
        BaseType::EffectTrigger => {
            reveal_strlit("effect_trigger");
        },
        BaseType::ItemStateModifier => {
            reveal_strlit("item_state");
        },
        BaseType::HalfPipeInvisibleWall => {
            reveal_strlit("halfpipe_invis");
        },
        BaseType::RotatingRoad => {
            reveal_strlit("rotating_road");
        },
        BaseType::SpecialWall => {
            reveal_strlit("special_wall");
        },
        BaseType::InvisibleWall2 => {
            reveal_strlit("invisible_wall2");
        },
    }
}

/// Joining texts without line feeds gives a text without line feeds.
proof fn lemma_no_newline_concat(a: Seq<char>, b: Seq<char>)
    requires
        no_newline(a),
        no_newline(b),
    ensures
        no_newline(a + b),
{
    assert forall|i: int| 0 <= i < (a + b).len() implies (a + b)[i] != '\n' by {
        if i < a.len() {
            assert((a + b)[i] == a[i]);
        } else {
            assert((a + b)[i] == b[i - a.len()]);
        }
    }
}

/// A material name is one field, holds no line feed and does not start a comment.
proof fn lemma_name_word(b: BaseType)
    ensures
        is_word(b.spec_name()),
        no_newline(b.spec_name()),
        b.spec_name()[0] != '#',
{
    lemma_name_chars(b);
    let n = b.spec_name();
    assert forall|i: int| 0 <= i < n.len() implies !is_ws(#[trigger] n[i]) by {
        assert(is_name_char(n[i]));
    }
    assert forall|i: int| 0 <= i < n.len() implies n[i] != '\n' by {
        assert(is_name_char(n[i]));
    }
    assert(is_name_char(n[0]));
}

/// A keyword, a space and a word are read as two fields.
proof fn lemma_key_line_tokens(key: Seq<char>, name: Seq<char>)
    requires
        is_word(key),
        is_word(name),
    ensures
        tokens(key.push(' ') + name) == seq![key, name],
{
    lemma_tokens_word(key);
    lemma_tokens_space(key);
    lemma_tokens_after_ws(key.push(' '), name);
}

/// The text of the face line over the three vertices numbered from `b`, without its line feed.
pub open spec fn face_body(b: nat) -> Seq<char> {
    "f "@ + decimal(b) + " "@ + decimal(b + 1) + " "@ + decimal(b + 2)
}

/// A face line is its body and a line feed; the body is read as `f` and three numbers.
proof fn lemma_face_line(b: nat)
    ensures
        face_line(b) == face_body(b).push('\n'),
        no_newline(face_body(b)),
        tokens(face_body(b)) == seq![seq!['f'], decimal(b), decimal(b + 1), decimal(b + 2)],
{
    reveal_strlit("f ");
    reveal_strlit(" ");
    reveal_strlit("\n");
    let f = seq!['f'];
    let sp = " "@;
    assert(sp =~= seq![' ']);
    assert("f "@ =~= f.push(' '));
    assert(is_word(f));
    assert(no_newline("f "@));
    assert(no_newline(sp));
    let d1 = decimal(b);
    let d2 = decimal(b + 1);
    let d3 = decimal(b + 2);
    lemma_decimal_digits(b);
    lemma_decimal_digits(b + 1);
    lemma_decimal_digits(b + 2);
    lemma_digits_word(d1);
    lemma_digits_word(d2);
    lemma_digits_word(d3);
    lemma_tokens_word(f);
    lemma_tokens_space(f);
    let p1 = "f "@ + d1;
    lemma_tokens_after_ws("f "@, d1);
    assert(p1 + sp =~= p1.push(' '));
    lemma_tokens_space(p1);
    let p2 = p1 + sp + d2;
    lemma_tokens_after_ws(p1 + sp, d2);
    assert(p2 + sp =~= p2.push(' '));
    lemma_tokens_space(p2);
    lemma_tokens_after_ws(p2 + sp, d3);
    assert(tokens(face_body(b)) =~= seq![f, d1, d2, d3]);
    lemma_no_newline_concat("f "@, d1);
    lemma_no_newline_concat(p1, sp);
    lemma_no_newline_concat(p1 + sp, d2);
    lemma_no_newline_concat(p2, sp);
    lemma_no_newline_concat(p2 + sp, d3);
    assert(face_line(b) =~= face_body(b).push('\n'));
}

/// Whether `l` is read as a vertex: its first field is `v` and it has at least three more.
pub open spec fn is_vertex_record(l: Seq<char>) -> bool {
    tokens(l).len() >= 4 && tokens(l)[0] == seq!['v']
}

/// Whether `t` is three vertex lines, each ended by a line feed: the text written for the three
/// corners of a prism.
pub open spec fn is_vertex_triple(t: Seq<char>) -> bool {
    let ls = split_lines(t);
    &&& t.len() > 0
    &&& t.last() == '\n'
    &&& ls.len() == 4
    &&& is_vertex_record(ls[0])
    &&& is_vertex_record(ls[1])
    &&& is_vertex_record(ls[2])
    &&& ls[3].len() == 0
}

/// Reading a vertex line adds one vertex and changes nothing else.
proof fn lemma_vertex_step(m: ObjModel, l: Seq<char>)
    requires
        m.error is None,
        is_vertex_record(l),
    ensures
        step(m, tokens(l)) == (ObjModel {
            vertices: m.vertices.push((tokens(l)[1], tokens(l)[2], tokens(l)[3])),
            ..m
        }),
{
    assert(tokens(l)[0][0] == 'v');
}

/// Reading three vertex lines adds three vertices and changes nothing else.
proof fn lemma_read_vertex_triple(m: ObjModel, t: Seq<char>)
    requires
        m.error is None,
        is_vertex_triple(t),
    ensures
        read_text(m, t).error is None,
        read_text(m, t).vertices.len() == m.vertices.len() + 3,
        read_text(m, t).faces == m.faces,
        read_text(m, t).groups == m.groups,
        read_text(m, t).current == m.current,
{
    let ls = split_lines(t);
    let l3 = ls.drop_last();
    let l2 = l3.drop_last();
    let l1 = l2.drop_last();
    let l0 = l1.drop_last();
    assert(l0 =~= Seq::<Seq<char>>::empty());
    assert(run_lines(m, l0) == m);
    lemma_vertex_step(m, ls[0]);
    let m1 = run_lines(m, l1);
    assert(l1.last() == ls[0]);
    assert(m1 == step(m, tokens(ls[0])));
    lemma_vertex_step(m1, ls[1]);
    let m2 = run_lines(m, l2);
    assert(l2.last() == ls[1]);
    assert(m2 == step(m1, tokens(ls[1])));
    lemma_vertex_step(m2, ls[2]);
    let m3 = run_lines(m, l3);
    assert(l3.last() == ls[2]);
    assert(m3 == step(m2, tokens(ls[2])));
    assert(ls.last() =~= Seq::<char>::empty());
    assert(run_lines(m, ls) == step(m3, tokens(ls.last())));
}

/// The vertex numbers of face `k` when every face is written with three fresh vertices.
pub open spec fn face_vertices(k: int) -> Seq<usize> {
    seq![(3 * k) as usize, (3 * k + 1) as usize, (3 * k + 2) as usize]
}

/// The `n` consecutive face positions from `start`.
pub open spec fn face_run(start: int, n: nat) -> Seq<usize> {
    Seq::new(n, |i: int| (start + i) as usize)
}

/// The groups the reader should find for the written groups `gs`: each class name, with the
/// positions of its faces, which follow those of the groups before it.
pub open spec fn expected_groups(gs: Seq<(BaseType, Seq<usize>)>) -> Seq<(Seq<char>, Seq<usize>)> {
    Seq::new(
        gs.len(),
        |j: int| (gs[j].0.spec_name(), face_run(face_total(gs.take(j)) as int, gs[j].1.len())),
    )
}

/// Whether every face of `m` is numbered as written: face `k` over vertices `3k`, `3k + 1` and
/// `3k + 2`.
pub open spec fn faces_numbered(m: ObjModel) -> bool {
    forall|k: int| 0 <= k < m.faces.len() ==> #[trigger] m.faces[k] == face_vertices(k)
}

/// Whether `m` is what reading the OBJ text of the groups `gs` should give: no error, three
/// vertices and one face per written prism, the faces numbered as written, and the expected
/// groups.
pub open spec fn read_back(m: ObjModel, gs: Seq<(BaseType, Seq<usize>)>) -> bool {
    &&& m.error is None
    &&& m.vertices.len() == 3 * face_total(gs)
    &&& m.faces.len() == face_total(gs)
    &&& faces_numbered(m)
    &&& m.groups == expected_groups(gs)
}

/// Whether every prism index of `idx` has its three vertex lines in `vl`.
pub open spec fn triples_for(idx: Seq<usize>, vl: Seq<Seq<char>>) -> bool {
    forall|i: int|
        0 <= i < idx.len() ==> #[trigger] idx[i] < vl.len() && is_vertex_triple(vl[idx[i] as int])
}

/// A name that no group has has no position.
proof fn lemma_group_position_none(gs: Seq<(Seq<char>, Seq<usize>)>, name: Seq<char>)
    requires
        forall|k: int| 0 <= k < gs.len() ==> (#[trigger] gs[k]).0 != name,
    ensures
        group_position(gs, name) == -1,
    decreases gs.len(),
{
    if gs.len() > 0 {
        assert forall|k: int| 0 <= k < gs.drop_last().len() implies (#[trigger] gs.drop_last()[k]).0
            != name by {
            assert(gs.drop_last()[k] == gs[k]);
        }
        lemma_group_position_none(gs.drop_last(), name);
        assert(gs.last() == gs[gs.len() - 1]);
    }
}

/// Face text ends a line.
proof fn lemma_faces_text_ends_line(idx: Seq<usize>, vl: Seq<Seq<char>>, first: nat)
    ensures
        ends_line(faces_text(idx, vl, first)),
{
    if idx.len() > 0 {
        let b = (first + 3 * (idx.len() - 1) as nat) as nat;
        lemma_face_line(b);
        let x = faces_text(idx.drop_last(), vl, first) + vl[idx.last() as int];
        assert(faces_text(idx, vl, first) == x + face_line(b));
        assert((x + face_line(b)).last() == face_line(b).last());
    }
}

/// Reading text with no line changes nothing.
proof fn lemma_read_empty(m: ObjModel)
    ensures
        read_text(m, Seq::empty()) == m,
{
    assert(split_lines(Seq::<char>::empty()) == seq![Seq::<char>::empty()]);
    assert(seq![Seq::<char>::empty()].drop_last() =~= Seq::<Seq<char>>::empty());
    assert(run_lines(m, Seq::<Seq<char>>::empty()) == m);
    assert(tokens(Seq::<char>::empty()) == Seq::<Seq<char>>::empty());
}

/// Reading the faces of one group, each after its three vertex lines, from the state after the
/// group's header lines.
proof fn lemma_read_faces(
    m: ObjModel,
    idx: Seq<usize>,
    vl: Seq<Seq<char>>,
    f0: nat,
    name: Seq<char>,
    base: Seq<(Seq<char>, Seq<usize>)>,
)
    requires
        m.error is None,
        m.vertices.len() == 3 * f0,
        m.faces.len() == f0,
        faces_numbered(m),
        m.current == name,
        m.groups == base,
        group_position(base, name) == -1,
        triples_for(idx, vl),
        3 * (f0 + idx.len()) <= usize::MAX,
    ensures
        ({
            let r = read_text(m, faces_text(idx, vl, 1 + 3 * f0));
            &&& r.error is None
            &&& r.vertices.len() == 3 * (f0 + idx.len())
            &&& r.faces.len() == f0 + idx.len()
            &&& faces_numbered(r)
            &&& r.current == name
            &&& r.groups == if idx.len() == 0 {
                base
            } else {
                base.push((name, face_run(f0 as int, idx.len())))
            }
        }),
    decreases idx.len(),
{
    let first = (1 + 3 * f0) as nat;
    if idx.len() == 0 {
        lemma_read_empty(m);
    } else {
        let n = idx.len();
        let init = idx.drop_last();
        assert forall|i: int| 0 <= i < init.len() implies #[trigger] init[i] < vl.len()
            && is_vertex_triple(vl[init[i] as int]) by {
            assert(init[i] == idx[i]);
        }
        lemma_read_faces(m, init, vl, f0, name, base);
        let x = faces_text(init, vl, first);
        let m1 = read_text(m, x);
        assert(idx[n - 1] < vl.len() && is_vertex_triple(vl[idx[n - 1] as int]));
        let v = vl[idx.last() as int];
        lemma_faces_text_ends_line(init, vl, first);
        lemma_read_text_concat(m, x, v);
        lemma_read_vertex_triple(m1, v);
        let m2 = read_text(m1, v);
        let kk = f0 + n - 1;
        let b = (first + 3 * (n - 1) as nat) as nat;
        assert(b == 1 + 3 * kk);
        lemma_face_line(b);
        assert(ends_line(x + v)) by {
            assert((x + v).last() == v.last());
        }
        assert(faces_text(idx, vl, first) == (x + v) + face_line(b));
        lemma_read_text_concat(m, x + v, face_line(b));
        lemma_read_line(m2, face_body(b));
        lemma_face_index_decimal(b);
        lemma_face_index_decimal(b + 1);
        lemma_face_index_decimal(b + 2);
        let toks = tokens(face_body(b));
        assert(toks[0][0] == 'f');
        assert(toks[0] != seq!['v']) by {
            assert(toks[0][0] != seq!['v'][0]);
        }
        let r = step(m2, toks);
        assert(r.faces == m2.faces.push(seq![(b - 1) as usize, b as usize, (b + 1) as usize]));
        assert(seq![(b - 1) as usize, b as usize, (b + 1) as usize] =~= face_vertices(kk as int));
        assert(r.groups == add_to_group(m2.groups, name, kk as usize));
        assert forall|k: int| 0 <= k < r.faces.len() implies #[trigger] r.faces[k] == face_vertices(k) by {
            if k < m2.faces.len() {
                assert(r.faces[k] == m2.faces[k]);
            }
        }
        if n == 1 {
            assert(m2.groups == base);
            assert(r.groups == base.push((name, seq![kk as usize])));
            assert(seq![kk as usize] =~= face_run(f0 as int, 1));
        } else {
            let g = (name, face_run(f0 as int, (n - 1) as nat));
            assert(m2.groups == base.push(g));
            assert(base.push(g).drop_last() =~= base);
            assert(group_position(base.push(g), name) == base.len());
            assert(base.push(g).update(base.len() as int, (name, g.1.push(kk as usize))) =~= base.push(
                (name, face_run(f0 as int, n)),
            )) by {
                assert(g.1.push(kk as usize) =~= face_run(f0 as int, n));
            }
        }
    }
}

/// The groups written after `prev` give the groups expected after them.
proof fn lemma_expected_groups_push(prev: Seq<(BaseType, Seq<usize>)>, g: (BaseType, Seq<usize>))
    ensures
        expected_groups(prev.push(g)) == expected_groups(prev).push(
            (g.0.spec_name(), face_run(face_total(prev) as int, g.1.len())),
        ),
        face_total(prev.push(g)) == face_total(prev) + g.1.len(),
{
    let q = prev.push(g);
    assert(q.drop_last() =~= prev);
    assert(q.take(prev.len() as int) =~= prev);
    assert forall|j: int| 0 <= j < prev.len() implies #[trigger] q.take(j) == prev.take(j) by {
        assert(q.take(j) =~= prev.take(j));
    }
    assert(expected_groups(q) =~= expected_groups(prev).push(
        (g.0.spec_name(), face_run(face_total(prev) as int, g.1.len())),
    ));
}

/// Reading the OBJ text of one more group, whose class differs from those before it.
proof fn lemma_read_group(
    m: ObjModel,
    prev: Seq<(BaseType, Seq<usize>)>,
    g: (BaseType, Seq<usize>),
    vl: Seq<Seq<char>>,
)
    requires
        read_back(m, prev),
        g.1.len() > 0,
        forall|k: int| 0 <= k < prev.len() ==> (#[trigger] prev[k]).0 != g.0,
        triples_for(g.1, vl),
        3 * (face_total(prev) + g.1.len()) <= usize::MAX,
    ensures
        read_back(read_text(m, group_obj_text(g, vl, 1 + 3 * face_total(prev))), prev.push(g)),
{
    reveal_strlit("g ");
    reveal_strlit("usemtl ");
    reveal_strlit("\n");
    let f0 = face_total(prev);
    let first = (1 + 3 * f0) as nat;
    let name = g.0.spec_name();
    lemma_name_word(g.0);
    let gk = seq!['g'];
    let uk = seq!['u', 's', 'e', 'm', 't', 'l'];
    assert(is_word(gk));
    assert(is_word(uk));
    assert("g "@ =~= gk.push(' '));
    assert("usemtl "@ =~= uk.push(' '));
    assert("\n"@ =~= seq!['\n']);
    let l1 = gk.push(' ') + name;
    let l2 = uk.push(' ') + name;
    let ft = faces_text(g.1, vl, first);
    assert(no_newline(gk.push(' ')));
    assert(no_newline(uk.push(' ')));
    lemma_no_newline_concat(gk.push(' '), name);
    lemma_no_newline_concat(uk.push(' '), name);
    let rest2 = ft + seq!['\n'];
    let rest1 = l2.push('\n') + rest2;
    assert(group_obj_text(g, vl, first) =~= l1.push('\n') + rest1);
    lemma_read_text_concat(m, l1.push('\n'), rest1);
    lemma_read_line(m, l1);
    lemma_key_line_tokens(gk, name);
    let m1 = step(m, tokens(l1));
    assert(seq![gk, name][0] == gk);
    assert(gk != seq!['v']) by {
        assert(gk[0] != seq!['v'][0]);
    }
    assert(gk != seq!['f']) by {
        assert(gk[0] != seq!['f'][0]);
    }
    assert(m1 == ObjModel { current: name, ..m });
    lemma_read_text_concat(m1, l2.push('\n'), rest2);
    lemma_read_line(m1, l2);
    lemma_key_line_tokens(uk, name);
    let m2 = step(m1, tokens(l2));
    assert(uk != seq!['v']) by {
        assert(uk[0] != seq!['v'][0]);
    }
    assert(uk != seq!['f']) by {
        assert(uk[0] != seq!['f'][0]);
    }
    assert(uk != gk) by {
        assert(uk.len() != gk.len());
    }
    assert(m2 == ObjModel { current: name, ..m });
    let base = expected_groups(prev);
    assert forall|k: int| 0 <= k < base.len() implies (#[trigger] base[k]).0 != name by {
        lemma_names_distinct(prev[k].0, g.0);
    }
    lemma_group_position_none(base, name);
    lemma_read_faces(m2, g.1, vl, f0, name, base);
    lemma_faces_text_ends_line(g.1, vl, first);
    lemma_read_text_concat(m2, ft, seq!['\n']);
    let m3 = read_text(m2, ft);
    assert(seq!['\n'] =~= Seq::<char>::empty().push('\n'));
    lemma_read_line(m3, Seq::empty());
    assert(step(m3, tokens(Seq::empty())) == m3);
    lemma_expected_groups_push(prev, g);
}

/// The conditions under which the OBJ text of the groups `gs` reads back as written: every group
/// holds a prism, no two groups share a class, every prism's vertex text is three vertex lines,
/// and the face numbers fit in a machine word.
pub open spec fn writable_groups(gs: Seq<(BaseType, Seq<usize>)>, vl: Seq<Seq<char>>) -> bool {
    &&& forall|k: int| 0 <= k < gs.len() ==> (#[trigger] gs[k]).1.len() > 0
    &&& forall|k1: int, k2: int| 0 <= k1 < k2 < gs.len() ==> (#[trigger] gs[k1]).0 != (#[trigger] gs[k2]).0
    &&& forall|k: int| 0 <= k < gs.len() ==> triples_for(#[trigger] gs[k].1, vl)
    &&& 3 * face_total(gs) <= usize::MAX
}

/// Reading the OBJ text of the groups `gs` gives what `read_back` describes.
proof fn lemma_read_groups(gs: Seq<(BaseType, Seq<usize>)>, vl: Seq<Seq<char>>)
    requires
        writable_groups(gs, vl),
    ensures
        read_back(read_text(initial_model(), obj_text(gs, vl)), gs),
    decreases gs.len(),
{
    if gs.len() == 0 {
        lemma_read_empty(initial_model());
        assert(expected_groups(gs) =~= Seq::<(Seq<char>, Seq<usize>)>::empty());
        assert(initial_model().groups =~= Seq::<(Seq<char>, Seq<usize>)>::empty());
    } else {
        let prev = gs.drop_last();
        let g = gs.last();
        assert(prev.push(g) =~= gs);
        assert(gs[gs.len() - 1] == g);
        assert(writable_groups(prev, vl)) by {
            assert forall|k: int| 0 <= k < prev.len() implies (#[trigger] prev[k]).1.len() > 0 by {
                assert(prev[k] == gs[k]);
            }
            assert forall|k1: int, k2: int| 0 <= k1 < k2 < prev.len() implies (#[trigger] prev[k1]).0
                != (#[trigger] prev[k2]).0 by {
                assert(prev[k1] == gs[k1]);
                assert(prev[k2] == gs[k2]);
            }
            assert forall|k: int| 0 <= k < prev.len() implies triples_for(#[trigger] prev[k].1, vl) by {
                assert(prev[k] == gs[k]);
            }
        }
        lemma_read_groups(prev, vl);
        let x = obj_text(prev, vl);
        assert(ends_line(x)) by {
            if prev.len() > 0 {
                reveal_strlit("\n");
                let y = group_obj_text(prev.last(), vl, 1 + 3 * face_total(prev.drop_last()));
                assert(x == obj_text(prev.drop_last(), vl) + y);
                assert(y.last() == '\n');
                assert((obj_text(prev.drop_last(), vl) + y).last() == y.last());
            }
        }
        let y = group_obj_text(g, vl, 1 + 3 * face_total(prev));
        assert(obj_text(gs, vl) == x + y);
        lemma_read_text_concat(initial_model(), x, y);
        assert forall|k: int| 0 <= k < prev.len() implies (#[trigger] prev[k]).0 != g.0 by {
            assert(prev[k] == gs[k]);
        }
        assert(triples_for(gs[gs.len() - 1].1, vl));
        lemma_read_group(read_text(initial_model(), x), prev, g, vl);
    }
}

/// The collision model's OBJ text reads back as written: when the text of each prism's corners is
/// three vertex lines, reading the OBJ text of the prisms `ps` gives no error, three vertices and
/// one face per prism, face `k` over vertices `3k`, `3k + 1` and `3k + 2` in the order the faces
/// were written, and one group per surface class present, by increasing class code, named after
/// the class and listing in increasing order the positions of the faces of that class's prisms;
/// there is no `default` group.
pub proof fn lemma_kcl_obj_reads_back(ps: Seq<Prism>, vl: Seq<Seq<char>>)
    requires
        vl.len() == ps.len(),
        forall|i: int| 0 <= i < vl.len() ==> is_vertex_triple(#[trigger] vl[i]),
        3 * ps.len() <= usize::MAX,
    ensures
        read_back(obj_model(obj_text(spec_material_groups(ps), vl)), spec_material_groups(ps)),
        obj_model(obj_text(spec_material_groups(ps), vl)).vertices.len() == 3 * ps.len(),
        obj_model(obj_text(spec_material_groups(ps), vl)).faces.len() == ps.len(),
{
    let gs = spec_material_groups(ps);
    lemma_groups_cover_prisms(ps);
    lemma_groups_ordered(ps);
    let all = Seq::new(32, |k: int| group_for(ps, k));
    assert forall|k: int| 0 <= k < gs.len() implies (#[trigger] gs[k]).1.len() > 0 by {
        all.lemma_filter_pred(nonempty_group(), k);
    }
    assert forall|k1: int, k2: int| 0 <= k1 < k2 < gs.len() implies (#[trigger] gs[k1]).0 != (
    #[trigger] gs[k2]).0 by {
        assert(gs[k1].0.spec_discriminant() < gs[k2].0.spec_discriminant());
    }
    assert forall|k: int| 0 <= k < gs.len() implies triples_for(#[trigger] gs[k].1, vl) by {
        assert forall|i: int| 0 <= i < gs[k].1.len() implies #[trigger] gs[k].1[i] < vl.len()
            && is_vertex_triple(vl[gs[k].1[i] as int]) by {
            assert(gs[k].1[i] < ps.len());
        }
    }
    lemma_read_groups(gs, vl);
    lemma_obj_model_read(obj_text(gs, vl));
}

} // verus!
