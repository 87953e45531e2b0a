use vstd::prelude::*;

use crate::text::str_eq;

verus! {

/// Mathematical model of one path component.
pub enum PartModel {
    Root,
    Cur,
    Parent,
    Normal(Seq<char>),
}

/// One component of a path: the root, a current-directory step, a
/// parent-directory step, or a normal name. Paths use '/' as separator.
#[derive(Debug, PartialEq)]
pub enum PathPart {
    RootDir,
    CurDir,
    ParentDir,
    Normal(String),
}

pub open spec fn part_model(p: PathPart) -> PartModel {
    match p {
        PathPart::RootDir => PartModel::Root,
        PathPart::CurDir => PartModel::Cur,
        PathPart::ParentDir => PartModel::Parent,
        PathPart::Normal(s) => PartModel::Normal(s@),
    }
}

impl View for PathPart {
    type V = PartModel;

    open spec fn view(&self) -> PartModel {
        part_model(*self)
    }
}

pub open spec fn parts_models(ps: Seq<PathPart>) -> Seq<PartModel> {
    Seq::new(ps.len(), |i: int| part_model(ps[i]))
}

pub open spec fn strs_models(ss: Seq<String>) -> Seq<Seq<char>> {
    Seq::new(ss.len(), |i: int| ss[i]@)
}

/// The raw segments of a path text: the maximal runs of characters between
/// '/' separators, empty runs included.
pub open spec fn split_segments(p: Seq<char>) -> Seq<Seq<char>>
    decreases p.len(),
{
    if p.len() == 0 {
        seq![Seq::<char>::empty()]
    } else {
        let rest = split_segments(p.drop_last());
        if p.last() == '/' {
            rest.push(Seq::<char>::empty())
        } else {
            rest.update(rest.len() - 1, rest.last().push(p.last()))
        }
    }
}

/// Normalization of raw segments into components, as the platform's path
/// parser does it: empty segments vanish, a "." segment is kept only as the
/// first component of a relative path, ".." becomes a parent step.
pub open spec fn norm_parts(segs: Seq<Seq<char>>, first: bool) -> Seq<PartModel>
    decreases segs,
{
    if segs.len() == 0 {
        Seq::empty()
    } else {
        let s = segs[0];
        let rest = segs.subrange(1, segs.len() as int);
        if s.len() == 0 {
            norm_parts(rest, first)
        } else if s == "."@ {
            if first {
                seq![PartModel::Cur] + norm_parts(rest, false)
            } else {
                norm_parts(rest, false)
            }
        } else if s == ".."@ {
            seq![PartModel::Parent] + norm_parts(rest, false)
        } else {
            seq![PartModel::Normal(s)] + norm_parts(rest, false)
        }
    }
}

pub open spec fn spec_is_absolute(p: Seq<char>) -> bool {
    p.len() > 0 && p[0] == '/'
}

/// The components a path text denotes.
pub open spec fn path_parts(p: Seq<char>) -> Seq<PartModel> {
    if spec_is_absolute(p) {
        seq![PartModel::Root] + norm_parts(split_segments(p), false)
    } else {
        norm_parts(split_segments(p), true)
    }
}

/// The component walk of the relativizer. `have` says whether components
/// were already emitted: while none were, equal leading components are
/// consumed as common prefix; a current-directory step on the base side
/// passes the path's component through; a parent step on the base side
/// after divergence makes the result ambiguous; at divergence one parent
/// step is emitted per remaining base component.
pub open spec fn rel_parts(a: Seq<PartModel>, b: Seq<PartModel>, have: bool) -> Option<
    Seq<PartModel>,
>
    decreases a.len() + b.len(),
{
    if a.len() == 0 && b.len() == 0 {
        Option::Some(Seq::empty())
    } else if a.len() > 0 && b.len() == 0 {
        Option::Some(a)
    } else if a.len() == 0 {
        match rel_parts(a, b.subrange(1, b.len() as int), true) {
            Option::Some(r) => Option::Some(seq![PartModel::Parent] + r),
            Option::None => Option::None,
        }
    } else {
        let x = a[0];
        let y = b[0];
        if !have && x == y {
            rel_parts(a.subrange(1, a.len() as int), b.subrange(1, b.len() as int), false)
        } else if y == PartModel::Cur {
            match rel_parts(
                a.subrange(1, a.len() as int),
                b.subrange(1, b.len() as int),
                true,
            ) {
                Option::Some(r) => Option::Some(seq![x] + r),
                Option::None => Option::None,
            }
        } else if y == PartModel::Parent {
            Option::None
        } else {
            Option::Some(Seq::new(b.len(), |i: int| PartModel::Parent) + a)
        }
    }
}

pub open spec fn part_text(p: PartModel) -> Seq<char> {
    match p {
        PartModel::Root => "/"@,
        PartModel::Cur => "."@,
        PartModel::Parent => ".."@,
        PartModel::Normal(s) => s,
    }
}

/// The text of a component sequence, components separated by '/'.
pub open spec fn join_parts(ps: Seq<PartModel>) -> Seq<char>
    decreases ps.len(),
{
    if ps.len() == 0 {
        Seq::empty()
    } else if ps.len() == 1 {
        part_text(ps[0])
    } else {
        join_parts(ps.drop_last()) + "/"@ + part_text(ps.last())
    }
}

/// `path` expressed relative to `base`. When the two differ in
/// absoluteness: an absolute path against a relative base is already the
/// best display form and stays as it is; a relative path cannot be
/// expressed against an absolute base. Otherwise the component walk
/// decides, and its result is joined back into a text.
pub open spec fn spec_relative(p: Seq<char>, b: Seq<char>) -> Option<Seq<char>> {
    if spec_is_absolute(p) != spec_is_absolute(b) {
        if spec_is_absolute(p) {
            Option::Some(p)
        } else {
            Option::None
        }
    } else {
        match rel_parts(path_parts(p), path_parts(b), false) {
            Option::Some(cs) => Option::Some(join_parts(cs)),
            Option::None => Option::None,
        }
    }
}

pub fn is_absolute(p: &str) -> (r: bool)
    ensures
        r == spec_is_absolute(p@),
{
    if p.unicode_len() == 0 {
        false
    } else {
        p.get_char(0) == '/'
    }
}

fn part_clone(p: &PathPart) -> (r: PathPart)
    ensures
        r@ == p@,
{
    match p {
        PathPart::RootDir => PathPart::RootDir,
        PathPart::CurDir => PathPart::CurDir,
        PathPart::ParentDir => PathPart::ParentDir,
        PathPart::Normal(s) => PathPart::Normal(s.clone()),
    }
}

fn part_eq(a: &PathPart, b: &PathPart) -> (r: bool)
    ensures
        r == (a@ == b@),
{
    match (a, b) {
        (PathPart::RootDir, PathPart::RootDir) => true,
        (PathPart::CurDir, PathPart::CurDir) => true,
        (PathPart::ParentDir, PathPart::ParentDir) => true,
        (PathPart::Normal(x), PathPart::Normal(y)) => str_eq(x.as_str(), y.as_str()),
        _ => false,
    }
}

#[verifier::loop_isolation(false)]
fn split_path(p: &str) -> (r: Vec<String>)
    ensures
        strs_models(r@) == split_segments(p@),
{
    let n = p.unicode_len();
    let mut segs: Vec<String> = Vec::new();
    let mut start: usize = 0;
    let mut i: usize = 0;
    proof {
        assert(strs_models(segs@).push(p@.subrange(0, 0)) =~~= split_segments(p@.subrange(0, 0)));
    }
    while i < n
        invariant
            0 <= start <= i <= n,
            strs_models(segs@).push(p@.subrange(start as int, i as int)) == split_segments(
                p@.subrange(0, i as int),
            ),
        decreases n - i,
    {
        let ghost segs0 = segs@;
        let ghost start0 = start as int;
        let c = p.get_char(i);
        if c == '/' {
            let seg = p.substring_char(start, i).to_owned();
            segs.push(seg);
            start = i + 1;
        }
        proof {
            let pre1 = p@.subrange(0, i + 1);
            assert(pre1.drop_last() =~~= p@.subrange(0, i as int));
            assert(pre1.last() == p@[i as int]);
            let s_old = strs_models(segs0).push(p@.subrange(start0, i as int));
            if c == '/' {
                assert(strs_models(segs@) =~~= s_old);
                assert(split_segments(pre1) == s_old.push(Seq::<char>::empty()));
                assert(strs_models(segs@).push(p@.subrange(start as int, i + 1)) =~~= s_old.push(
                    Seq::<char>::empty(),
                ));
            } else {
                assert(p@.subrange(start0, i + 1) =~~= p@.subrange(start0, i as int).push(
                    p@[i as int],
                ));
                assert(split_segments(pre1) == s_old.update(
                    s_old.len() - 1,
                    s_old.last().push(p@[i as int]),
                ));
                assert(strs_models(segs@).push(p@.subrange(start0, i + 1)) =~~= s_old.update(
                    s_old.len() - 1,
                    s_old.last().push(p@[i as int]),
                ));
            }
        }
        i = i + 1;
    }
    let last = p.substring_char(start, n).to_owned();
    segs.push(last);
    proof {
        assert(p@.subrange(0, n as int) =~~= p@);
        assert(strs_models(segs@) =~~= strs_models(segs@.drop_last()).push(
            p@.subrange(start as int, n as int),
        ));
    }
    segs
}

#[verifier::loop_isolation(false)]
fn normalize_segments(segs: &Vec<String>, first0: bool) -> (r: Vec<PathPart>)
    ensures
        parts_models(r@) == norm_parts(strs_models(segs@), first0),
{
    let ghost all = strs_models(segs@);
    let mut parts: Vec<PathPart> = Vec::new();
    let mut first = first0;
    let mut k: usize = 0;
    proof {
        assert(all.subrange(0, all.len() as int) =~~= all);
        assert(parts_models(parts@) + norm_parts(all, first0) =~~= norm_parts(all, first0));
    }
    while k < segs.len()
        invariant
            0 <= k <= segs@.len(),
            norm_parts(all, first0) == parts_models(parts@) + norm_parts(
                all.subrange(k as int, all.len() as int),
                first,
            ),
        decreases segs@.len() - k,
    {
        let ghost parts0 = parts@;
        let ghost first_in = first;
        let ghost suf = all.subrange(k as int, all.len() as int);
        proof {
            assert(suf[0] == segs@[k as int]@);
            assert(suf.subrange(1, suf.len() as int) =~~= all.subrange(
                k + 1,
                all.len() as int,
            ));
        }
        let seg = &segs[k];
        if seg.as_str().is_empty() {
        } else if str_eq(seg.as_str(), ".") {
            if first {
                parts.push(PathPart::CurDir);
            }
            first = false;
        } else if str_eq(seg.as_str(), "..") {
            parts.push(PathPart::ParentDir);
            first = false;
        } else {
            parts.push(PathPart::Normal(seg.clone()));
            first = false;
        }
        proof {
            if parts@.len() > parts0.len() {
                let added = parts@[parts@.len() - 1];
                assert(parts_models(parts@) =~~= parts_models(parts0).push(part_model(added)));
                assert(parts_models(parts0).push(part_model(added)) + norm_parts(
                    all.subrange(k + 1, all.len() as int),
                    first,
                ) =~~= parts_models(parts0) + (seq![part_model(added)] + norm_parts(
                    all.subrange(k + 1, all.len() as int),
                    first,
                )));
            } else {
                assert(parts_models(parts@) =~~= parts_models(parts0));
            }
        }
        k = k + 1;
    }
    proof {
        assert(all.subrange(all.len() as int, all.len() as int) =~~= Seq::<Seq<char>>::empty());
        assert(parts_models(parts@) + Seq::<PartModel>::empty() =~~= parts_models(parts@));
    }
    parts
}

/// The components of a path text, in order.
#[verifier::loop_isolation(false)]
pub fn components_of(p: &str) -> (r: Vec<PathPart>)
    ensures
        parts_models(r@) == path_parts(p@),
{
    let abs = is_absolute(p);
    let segs = split_path(p);
    let body = normalize_segments(&segs, !abs);
    if abs {
        let mut r: Vec<PathPart> = Vec::new();
        r.push(PathPart::RootDir);
        let mut k: usize = 0;
        while k < body.len()
            invariant
                0 <= k <= body@.len(),
                r@.len() == 1 + k,
                parts_models(r@) == seq![PartModel::Root] + parts_models(body@).subrange(
                    0,
                    k as int,
                ),
            decreases body@.len() - k,
        {
            let ghost r0 = r@;
            r.push(part_clone(&body[k]));
            proof {
                assert(parts_models(r@) =~~= parts_models(r0).push(parts_models(body@)[k as int]));
                assert(parts_models(r0).push(parts_models(body@)[k as int]) =~~= seq![
                    PartModel::Root,
                ] + parts_models(body@).subrange(0, k + 1));
            }
            k = k + 1;
        }
        proof {
            assert(parts_models(body@).subrange(0, body@.len() as int) =~~= parts_models(body@));
        }
        r
    } else {
        body
    }
}

pub open spec fn prepend_opt(c: Seq<PartModel>, r: Option<Seq<PartModel>>) -> Option<
    Seq<PartModel>,
> {
    match r {
        Option::Some(x) => Option::Some(c + x),
        Option::None => Option::None,
    }
}

#[verifier::loop_isolation(false)]
#[verifier::rlimit(100)]
fn relative_parts(pa: &Vec<PathPart>, pb: &Vec<PathPart>) -> (r: Option<Vec<PathPart>>)
    ensures
        r matches Some(c) ==> rel_parts(parts_models(pa@), parts_models(pb@), false)
            == Option::Some(parts_models(c@)),
        r is None ==> rel_parts(parts_models(pa@), parts_models(pb@), false) is None,
{
    let ghost a_all = parts_models(pa@);
    let ghost b_all = parts_models(pb@);
    let mut comps: Vec<PathPart> = Vec::new();
    let mut ia: usize = 0;
    let mut ib: usize = 0;
    proof {
        assert(a_all.subrange(0, a_all.len() as int) =~~= a_all);
        assert(b_all.subrange(0, b_all.len() as int) =~~= b_all);
        assert(prepend_opt(parts_models(comps@), rel_parts(a_all, b_all, false)) == rel_parts(
            a_all,
            b_all,
            false,
        ) || rel_parts(a_all, b_all, false) is None) by {
            match rel_parts(a_all, b_all, false) {
                Option::Some(x) => {
                    assert(parts_models(comps@) + x =~~= x);
                },
                Option::None => {},
            }
        }
        assert(prepend_opt(parts_models(comps@), rel_parts(a_all, b_all, false)) == rel_parts(
            a_all,
            b_all,
            false,
        )) by {
            match rel_parts(a_all, b_all, false) {
                Option::Some(x) => {
                    assert(parts_models(comps@) + x =~~= x);
                },
                Option::None => {},
            }
        }
    }
    loop
        invariant
            0 <= ia <= pa@.len(),
            0 <= ib <= pb@.len(),
            a_all == parts_models(pa@),
            b_all == parts_models(pb@),
            rel_parts(a_all, b_all, false) == prepend_opt(
                parts_models(comps@),
                rel_parts(
                    a_all.subrange(ia as int, a_all.len() as int),
                    b_all.subrange(ib as int, b_all.len() as int),
                    comps@.len() > 0,
                ),
            ),
        decreases pa@.len() - ia + pb@.len() - ib,
    {
        let ghost sa = a_all.subrange(ia as int, a_all.len() as int);
        let ghost sb = b_all.subrange(ib as int, b_all.len() as int);
        let ghost comps0 = comps@;
        if ia == pa.len() && ib == pb.len() {
            proof {
                assert(parts_models(comps@) + Seq::<PartModel>::empty() =~~= parts_models(comps@));
            }
            return Some(comps);
        } else if ib == pb.len() {
            // base exhausted: remaining path components are appended as they
            // stand
            while ia < pa.len()
                invariant
                    0 <= ia <= pa@.len(),
                    rel_parts(a_all, b_all, false) == prepend_opt(
                        parts_models(comps@),
                        rel_parts(
                            a_all.subrange(ia as int, a_all.len() as int),
                            Seq::<PartModel>::empty(),
                            comps@.len() > 0,
                        ),
                    ),
                decreases pa@.len() - ia,
            {
                let ghost c0 = comps@;
                let ghost sa0 = a_all.subrange(ia as int, a_all.len() as int);
                comps.push(part_clone(&pa[ia]));
                proof {
                    assert(parts_models(comps@) =~~= parts_models(c0).push(sa0[0]));
                    let sa1 = a_all.subrange(ia + 1, a_all.len() as int);
                    assert(sa1 =~~= sa0.subrange(1, sa0.len() as int));
                    match rel_parts(sa0, Seq::<PartModel>::empty(), c0.len() > 0) {
                        Option::Some(x) => {
                            assert(x =~~= sa0);
                            match rel_parts(sa1, Seq::<PartModel>::empty(), comps@.len() > 0) {
                                Option::Some(y) => {
                                    assert(y =~~= sa1);
                                    assert(parts_models(c0) + sa0 =~~= parts_models(comps@) + sa1);
                                },
                                Option::None => {},
                            }
                        },
                        Option::None => {},
                    }
                }
                ia = ia + 1;
            }
            proof {
                let sae = a_all.subrange(ia as int, a_all.len() as int);
                assert(sae =~~= Seq::<PartModel>::empty());
                assert(parts_models(comps@) + Seq::<PartModel>::empty() =~~= parts_models(comps@));
            }
            return Some(comps);
        } else if ia == pa.len() {
            // path exhausted first: every remaining base component costs one
            // parent step
            comps.push(PathPart::ParentDir);
            proof {
                assert(sa.len() == 0);
                assert(sb[0] == b_all[ib as int]);
                assert(sb.subrange(1, sb.len() as int) =~~= b_all.subrange(
                    ib + 1,
                    b_all.len() as int,
                ));
                assert(parts_models(comps@) =~~= parts_models(comps0).push(PartModel::Parent));
                assert(a_all.subrange(ia as int, a_all.len() as int) =~~= sa);
                match rel_parts(sa, sb.subrange(1, sb.len() as int), true) {
                    Option::Some(x) => {
                        assert(parts_models(comps0) + (seq![PartModel::Parent] + x)
                            =~~= parts_models(comps@) + x);
                    },
                    Option::None => {},
                }
            }
            ib = ib + 1;
        } else {
            proof {
                assert(sa[0] == a_all[ia as int]);
                assert(sb[0] == b_all[ib as int]);
                assert(sa.subrange(1, sa.len() as int) =~~= a_all.subrange(
                    ia + 1,
                    a_all.len() as int,
                ));
                assert(sb.subrange(1, sb.len() as int) =~~= b_all.subrange(
                    ib + 1,
                    b_all.len() as int,
                ));
            }
            let a = &pa[ia];
            let b = &pb[ib];
            if comps.len() == 0 && part_eq(a, b) {
                ia = ia + 1;
                ib = ib + 1;
            } else if matches!(b, PathPart::CurDir) {
                comps.push(part_clone(a));
                proof {
                    assert(parts_models(comps@) =~~= parts_models(comps0).push(sa[0]));
                    match rel_parts(
                        sa.subrange(1, sa.len() as int),
                        sb.subrange(1, sb.len() as int),
                        true,
                    ) {
                        Option::Some(x) => {
                            assert(parts_models(comps0) + (seq![sa[0]] + x) =~~= parts_models(
                                comps@,
                            ) + x);
                        },
                        Option::None => {},
                    }
                }
                ia = ia + 1;
                ib = ib + 1;
            } else if matches!(b, PathPart::ParentDir) {
                return None;
            } else {
                // divergence: one parent step per remaining base component,
                // then the rest of the path
                let ghost parents = Seq::new(sb.len(), |i: int| PartModel::Parent);
                let mut k: usize = ib;
                while k < pb.len()
                    invariant
                        ib <= k <= pb@.len(),
                        parts_models(comps@) == parts_models(comps0) + Seq::new(
                            (k - ib) as nat,
                            |i: int| PartModel::Parent,
                        ),
                    decreases pb@.len() - k,
                {
                    let ghost c0 = comps@;
                    comps.push(PathPart::ParentDir);
                    proof {
                        assert(parts_models(comps@) =~~= parts_models(c0).push(PartModel::Parent));
                        assert(parts_models(comps0) + Seq::new(
                            (k - ib) as nat,
                            |i: int| PartModel::Parent,
                        ).push(PartModel::Parent) =~~= parts_models(comps0) + Seq::new(
                            (k + 1 - ib) as nat,
                            |i: int| PartModel::Parent,
                        ));
                    }
                    k = k + 1;
                }
                let mut m: usize = ia;
                while m < pa.len()
                    invariant
                        ia <= m <= pa@.len(),
                        parts_models(comps@) == parts_models(comps0) + parents + a_all.subrange(
                            ia as int,
                            m as int,
                        ),
                    decreases pa@.len() - m,
                {
                    let ghost c0 = comps@;
                    comps.push(part_clone(&pa[m]));
                    proof {
                        assert(parts_models(comps@) =~~= parts_models(c0).push(a_all[m as int]));
                        assert((parts_models(comps0) + parents + a_all.subrange(
                            ia as int,
                            m as int,
                        )).push(a_all[m as int]) =~~= parts_models(comps0) + parents
                            + a_all.subrange(ia as int, m + 1));
                    }
                    m = m + 1;
                }
                proof {
                    assert(a_all.subrange(ia as int, pa@.len() as int) =~~= sa);
                    assert(rel_parts(sa, sb, comps0.len() > 0) == Option::Some(parents + sa));
                    assert(parts_models(comps@) =~~= parts_models(comps0) + (parents + sa));
                }
                return Some(comps);
            }
        }
    }
}

#[verifier::loop_isolation(false)]
fn join_path_parts(ps: &Vec<PathPart>) -> (r: String)
    ensures
        r@ == join_parts(parts_models(ps@)),
{
    let ghost all = parts_models(ps@);
    let mut out = String::new();
    let mut k: usize = 0;
    proof {
        assert(all.subrange(0, 0) =~~= Seq::<PartModel>::empty());
    }
    while k < ps.len()
        invariant
            0 <= k <= ps@.len(),
            out@ == join_parts(all.subrange(0, k as int)),
        decreases ps@.len() - k,
    {
        if k > 0 {
            out.append("/");
        }
        match &ps[k] {
            PathPart::RootDir => out.append("/"),
            PathPart::CurDir => out.append("."),
            PathPart::ParentDir => out.append(".."),
            PathPart::Normal(s) => out.append(s.as_str()),
        }
        proof {
            let pre1 = all.subrange(0, k + 1);
            assert(pre1.drop_last() =~~= all.subrange(0, k as int));
            assert(pre1.last() == all[k as int]);
            assert(out@ == join_parts(all.subrange(0, k as int)) + (if k > 0 {
                "/"@
            } else {
                Seq::<char>::empty()
            }) + part_text(all[k as int]));
            if k == 0 {
                assert(Seq::<char>::empty() + Seq::<char>::empty() + part_text(all[0])
                    =~~= part_text(all[0]));
            }
        }
        k = k + 1;
    }
    proof {
        assert(all.subrange(0, ps@.len() as int) =~~= all);
    }
    out
}

/// Express `path` relative to `base`, as a pure computation on the two
/// texts; `None` means no valid relative expression exists and the caller
/// should fall back to the absolute path.
pub fn path_relative_from(path: &str, base: &str) -> (r: Option<String>)
    ensures
        r matches Some(s) ==> spec_relative(path@, base@) == Option::Some(s@),
        r is Some <==> spec_relative(path@, base@) is Some,
{
    let p_abs = is_absolute(path);
    let b_abs = is_absolute(base);
    if p_abs != b_abs {
        if p_abs {
            Some(path.to_owned())
        } else {
            None
        }
    } else {
        let pa = components_of(path);
        let pb = components_of(base);
        match relative_parts(&pa, &pb) {
            Some(c) => Some(join_path_parts(&c)),
            None => None,
        }
    }
}

} // verus!
