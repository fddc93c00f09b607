//! Root-confined request-path resolution. A request path is split on `/`,
//! normalized (empty and `.` segments dropped), and joined under the served
//! root; any `..` segment rejects the whole request, so a resolved path can
//! never name anything outside the root.
use vstd::prelude::*;
use vstd::string::*;

use crate::strutil::str_eq;

verus! {

/// A request whose resolution would leave the served root.
#[derive(Debug)]
pub enum ResolveError {
    PathEscapesRoot,
}

/// The segments of `s` between `/` separators (empty segments included),
/// in order.
pub open spec fn split_slash(s: Seq<char>) -> Seq<Seq<char>>
    decreases s.len(),
{
    if s.len() == 0 {
        seq![Seq::<char>::empty()]
    } else if s.last() == '/' {
        split_slash(s.drop_last()).push(Seq::<char>::empty())
    } else {
        let prev = split_slash(s.drop_last());
        prev.update(prev.len() - 1, prev.last().push(s.last()))
    }
}

/// The traversal segment `..`.
pub open spec fn dotdot() -> Seq<char> {
    seq!['.', '.']
}

/// True iff some segment is the traversal segment `..`.
pub open spec fn has_traversal(segs: Seq<Seq<char>>) -> bool {
    exists|i: int| 0 <= i < segs.len() && segs[i] == dotdot()
}

/// A segment that survives normalization: non-empty and not `.`.
pub open spec fn is_kept_segment(g: Seq<char>) -> bool {
    g.len() > 0 && g != seq!['.']
}

/// The segments that survive normalization, in order.
pub open spec fn kept_segments(segs: Seq<Seq<char>>) -> Seq<Seq<char>>
    decreases segs.len(),
{
    if segs.len() == 0 {
        Seq::empty()
    } else if is_kept_segment(segs.last()) {
        kept_segments(segs.drop_last()).push(segs.last())
    } else {
        kept_segments(segs.drop_last())
    }
}

/// The root extended by one path segment per element of `segs`.
pub open spec fn join_under(root: Seq<char>, segs: Seq<Seq<char>>) -> Seq<char>
    decreases segs.len(),
{
    if segs.len() == 0 {
        root
    } else {
        join_under(root, segs.drop_last()) + seq!['/'] + segs.last()
    }
}

/// True iff no character of `g` is a separator.
pub open spec fn slash_free(g: Seq<char>) -> bool {
    forall|i: int| 0 <= i < g.len() ==> g[i] != '/'
}

proof fn lemma_split_nonempty(s: Seq<char>)
    ensures
        split_slash(s).len() >= 1,
    decreases s.len(),
{
    if s.len() > 0 {
        lemma_split_nonempty(s.drop_last());
    }
}

proof fn lemma_split_slash_free(s: Seq<char>)
    ensures
        forall|i: int| 0 <= i < split_slash(s).len() ==> slash_free(#[trigger] split_slash(s)[i]),
    decreases s.len(),
{
    if s.len() == 0 {
    } else {
        lemma_split_slash_free(s.drop_last());
        lemma_split_nonempty(s.drop_last());
        let prev = split_slash(s.drop_last());
        if s.last() == '/' {
        } else {
            let upd = prev.update(prev.len() - 1, prev.last().push(s.last()));
            assert forall|i: int| 0 <= i < upd.len() implies slash_free(#[trigger] upd[i]) by {
                if i == prev.len() - 1 {
                    assert(slash_free(prev.last()));
                    assert(forall|j: int|
                        0 <= j < upd[i].len() ==> upd[i][j] == prev.last().push(s.last())[j]);
                } else {
                    assert(upd[i] == prev[i]);
                }
            }
        }
    }
}

/// Splitting distributes over joining two pieces with a separator.
proof fn lemma_split_concat(a: Seq<char>, b: Seq<char>)
    ensures
        split_slash(a + seq!['/'] + b) == split_slash(a) + split_slash(b),
    decreases b.len(),
{
    if b.len() == 0 {
        assert(a + seq!['/'] + b =~= a + seq!['/']);
        assert((a + seq!['/']).last() == '/');
        assert((a + seq!['/']).drop_last() =~= a);
        assert(split_slash(a + seq!['/']) == split_slash(a).push(Seq::<char>::empty()));
        assert(split_slash(b) =~= seq![Seq::<char>::empty()]);
        assert(split_slash(a).push(Seq::<char>::empty()) =~= split_slash(a) + split_slash(b));
    } else {
        let b0 = b.drop_last();
        let c = b.last();
        lemma_split_concat(a, b0);
        let whole = a + seq!['/'] + b;
        assert(whole.len() > 0);
        assert(whole.last() == c);
        assert(whole.drop_last() =~= a + seq!['/'] + b0);
        lemma_split_nonempty(b0);
        if c == '/' {
            assert(split_slash(whole) == (split_slash(a) + split_slash(b0)).push(
                Seq::<char>::empty(),
            ));
            assert((split_slash(a) + split_slash(b0)).push(Seq::<char>::empty()) =~= split_slash(a)
                + split_slash(b0).push(Seq::<char>::empty()));
        } else {
            let prev = split_slash(a) + split_slash(b0);
            assert(split_slash(whole) == prev.update(prev.len() - 1, prev.last().push(c)));
            let pb = split_slash(b0);
            assert(prev.last() == pb.last());
            assert(prev.update(prev.len() - 1, prev.last().push(c)) =~= split_slash(a) + pb.update(
                pb.len() - 1,
                pb.last().push(c),
            ));
        }
    }
}

proof fn lemma_split_of_slash_free(g: Seq<char>)
    requires
        slash_free(g),
    ensures
        split_slash(g) == seq![g],
    decreases g.len(),
{
    if g.len() == 0 {
        assert(g =~= Seq::<char>::empty());
        assert(split_slash(g) =~= seq![g]);
    } else {
        assert(slash_free(g.drop_last()));
        lemma_split_of_slash_free(g.drop_last());
        let prev = split_slash(g.drop_last());
        assert(prev.last().push(g.last()) =~= g);
        assert(prev.update(0, g) =~= seq![g]);
    }
}

/// The served root is a prefix of anything joined under it.
proof fn lemma_join_prefix(root: Seq<char>, segs: Seq<Seq<char>>)
    ensures
        root.is_prefix_of(join_under(root, segs)),
    decreases segs.len(),
{
    if segs.len() > 0 {
        lemma_join_prefix(root, segs.drop_last());
        assert(join_under(root, segs).subrange(0, root.len() as int) =~= join_under(
            root,
            segs.drop_last(),
        ).subrange(0, root.len() as int));
    }
}

/// Joining whole segments under a root adds exactly those segments to the
/// root's own segment list.
proof fn lemma_split_join(root: Seq<char>, segs: Seq<Seq<char>>)
    requires
        forall|i: int| 0 <= i < segs.len() ==> slash_free(#[trigger] segs[i]),
    ensures
        split_slash(join_under(root, segs)) == split_slash(root) + segs,
    decreases segs.len(),
{
    if segs.len() == 0 {
        assert(split_slash(root) + segs =~= split_slash(root));
    } else {
        let s0 = segs.drop_last();
        lemma_split_join(root, s0);
        lemma_split_concat(join_under(root, s0), segs.last());
        lemma_split_of_slash_free(segs.last());
        assert(split_slash(root) + s0 + seq![segs.last()] =~= split_slash(root) + segs);
    }
}

proof fn lemma_kept_membership(segs: Seq<Seq<char>>)
    ensures
        forall|i: int|
            0 <= i < kept_segments(segs).len() ==> is_kept_segment(
                #[trigger] kept_segments(segs)[i],
            ) && exists|j: int| 0 <= j < segs.len() && kept_segments(segs)[i] == segs[j],
    decreases segs.len(),
{
    if segs.len() > 0 {
        lemma_kept_membership(segs.drop_last());
        let k0 = kept_segments(segs.drop_last());
        assert forall|i: int|
            0 <= i < kept_segments(segs).len() implies is_kept_segment(
            #[trigger] kept_segments(segs)[i],
        ) && exists|j: int| 0 <= j < segs.len() && kept_segments(segs)[i] == segs[j] by {
            if i < k0.len() {
                assert(kept_segments(segs)[i] == k0[i]);
                let j = choose|j: int| 0 <= j < segs.drop_last().len() && k0[i] == segs.drop_last()[j];
                assert(segs.drop_last()[j] == segs[j]);
            } else {
                assert(kept_segments(segs)[i] == segs.last());
                assert(segs[segs.len() - 1] == segs.last());
            }
        }
    }
}

/// Root confinement: when a request has no traversal segment, the path it
/// resolves to is the served root extended by the request's surviving
/// segments, each of which is a real name — non-empty, not `.`, not `..`,
/// and separator-free. In particular the root is a prefix of the resolved
/// path, so resolution never yields a path outside the served root.
pub proof fn lemma_resolution_confined(root: Seq<char>, req: Seq<char>)
    requires
        !has_traversal(split_slash(req)),
    ensures
        ({
            let kept = kept_segments(split_slash(req));
            let p = join_under(root, kept);
            &&& root.is_prefix_of(p)
            &&& split_slash(p) == split_slash(root) + kept
            &&& forall|i: int|
                0 <= i < kept.len() ==> (#[trigger] kept[i]).len() > 0 && kept[i] != dotdot()
                    && kept[i] != seq!['.'] && slash_free(kept[i])
        }),
{
    let segs = split_slash(req);
    let kept = kept_segments(segs);
    lemma_kept_membership(segs);
    lemma_split_slash_free(req);
    assert forall|i: int|
        0 <= i < kept.len() implies (#[trigger] kept[i]).len() > 0 && kept[i] != dotdot()
        && kept[i] != seq!['.'] && slash_free(kept[i]) by {
        let j = choose|j: int| 0 <= j < segs.len() && kept[i] == segs[j];
        assert(segs[j] != dotdot());
        assert(slash_free(segs[j]));
    }
    lemma_join_prefix(root, kept);
    lemma_split_join(root, kept);
}

fn is_dot(cur: &String) -> (r: bool)
    ensures
        r == (cur@ == seq!['.']),
{
    let r = str_eq(cur.as_str(), ".");
    proof {
        reveal_strlit(".");
        assert("."@ =~= seq!['.']);
    }
    r
}

fn is_dotdot(cur: &String) -> (r: bool)
    ensures
        r == (cur@ == dotdot()),
{
    let r = str_eq(cur.as_str(), "..");
    proof {
        reveal_strlit("..");
        assert(".."@ =~= dotdot());
    }
    r
}

/// Maps a request path to a filesystem path confined to the served root.
///
/// The request is split on `/`; empty and `.` segments are dropped; any
/// `..` segment rejects the request. On success the result is the root
/// joined with the surviving segments — for a request with no surviving
/// segments, the root itself.
pub fn resolve(root: &str, request_path: &str) -> (r: Result<String, ResolveError>)
    ensures
        r is Err <==> has_traversal(split_slash(request_path@)),
        r matches Ok(p) ==> p@ == join_under(
            root@,
            kept_segments(split_slash(request_path@)),
        ),
        r matches Ok(p) ==> root@.is_prefix_of(p@),
{
    let rlen = request_path.unicode_len();
    let mut out = String::from_str(root);
    let mut cur = String::new();
    let mut i: usize = 0;
    proof {
        assert(request_path@.subrange(0, 0) =~= Seq::<char>::empty());
        assert(split_slash(Seq::<char>::empty()) =~= seq![Seq::<char>::empty()]);
        assert(split_slash(Seq::<char>::empty()).drop_last() =~= Seq::<Seq<char>>::empty());
    }
    while i < rlen
        invariant
            rlen == request_path@.len(),
            i <= rlen,
            ({
                let sp = split_slash(request_path@.subrange(0, i as int));
                &&& sp.len() >= 1
                &&& sp.last() == cur@
                &&& out@ == join_under(root@, kept_segments(sp.drop_last()))
                &&& !has_traversal(sp.drop_last())
            }),
        decreases rlen - i,
    {
        let ghost prefix = request_path@.subrange(0, i as int);
        let ghost sp = split_slash(prefix);
        let c = request_path.get_char(i);
        let ghost prefix2 = request_path@.subrange(0, (i + 1) as int);
        proof {
            assert(prefix2 =~= prefix.push(request_path@[i as int]));
            assert(prefix2.len() > 0);
            assert(prefix2.last() == c);
            assert(prefix2.drop_last() =~= prefix);
        }
        if c == '/' {
            let ghost sp2 = split_slash(prefix2);
            proof {
                assert(sp2 == sp.push(Seq::<char>::empty()));
                assert(sp2.drop_last() =~= sp);
                assert(sp2.last() == Seq::<char>::empty());
            }
            if is_dotdot(&cur) {
                proof {
                    let rest = request_path@.subrange((i + 1) as int, rlen as int);
                    assert(request_path@ =~= prefix + seq!['/'] + rest);
                    lemma_split_concat(prefix, rest);
                    assert(split_slash(request_path@)[sp.len() - 1] == sp.last());
                    assert(has_traversal(split_slash(request_path@)));
                }
                return Err(ResolveError::PathEscapesRoot);
            }
            let keep = cur.unicode_len() > 0 && !is_dot(&cur);
            if keep {
                out.append("/");
                out.append(cur.as_str());
            }
            proof {
                reveal_strlit("/");
                assert("/"@ =~= seq!['/']);
                assert(sp == sp.drop_last().push(sp.last()));
                if keep {
                    assert(is_kept_segment(sp.last()));
                    assert(kept_segments(sp) == kept_segments(sp.drop_last()).push(sp.last()));
                    let ks = kept_segments(sp);
                    assert(ks.drop_last() =~= kept_segments(sp.drop_last()));
                    assert(join_under(root@, ks) == join_under(root@, ks.drop_last())
                        + seq!['/'] + ks.last());
                    assert(out@ =~= join_under(root@, kept_segments(sp)));
                } else {
                    assert(!is_kept_segment(sp.last()));
                    assert(kept_segments(sp) == kept_segments(sp.drop_last()));
                }
                assert forall|k: int| 0 <= k < sp.len() implies #[trigger] sp[k] != dotdot() by {
                    if k < sp.len() - 1 {
                        assert(sp.drop_last()[k] == sp[k]);
                        assert(!has_traversal(sp.drop_last()));
                    } else {
                        assert(sp[k] == sp.last());
                    }
                }
                assert(!has_traversal(sp2.drop_last()));
            }
            cur = String::new();
        } else {
            let piece = request_path.substring_char(i, i + 1);
            cur.append(piece);
            let ghost sp2 = split_slash(prefix2);
            proof {
                assert(piece@ =~= seq![request_path@[i as int]]);
                assert(sp2 == sp.update(sp.len() - 1, sp.last().push(c)));
                assert(sp2.last() == sp.last().push(c));
                assert(sp.last().push(c) =~= cur@);
                assert(sp2.drop_last() =~= sp.drop_last());
            }
        }
        i += 1;
    }
    let ghost spf = split_slash(request_path@);
    proof {
        assert(request_path@.subrange(0, rlen as int) =~= request_path@);
    }
    if is_dotdot(&cur) {
        proof {
            assert(spf[spf.len() - 1] == spf.last());
            assert(has_traversal(spf));
        }
        return Err(ResolveError::PathEscapesRoot);
    }
    let keep = cur.unicode_len() > 0 && !is_dot(&cur);
    if keep {
        out.append("/");
        out.append(cur.as_str());
    }
    proof {
        reveal_strlit("/");
        assert("/"@ =~= seq!['/']);
        assert(spf == spf.drop_last().push(spf.last()));
        if keep {
            assert(is_kept_segment(spf.last()));
            assert(kept_segments(spf) == kept_segments(spf.drop_last()).push(spf.last()));
            let ks = kept_segments(spf);
            assert(ks.drop_last() =~= kept_segments(spf.drop_last()));
            assert(join_under(root@, ks) == join_under(root@, ks.drop_last()) + seq!['/']
                + ks.last());
            assert(out@ =~= join_under(root@, kept_segments(spf)));
        } else {
            assert(!is_kept_segment(spf.last()));
            assert(kept_segments(spf) == kept_segments(spf.drop_last()));
        }
        assert forall|k: int| 0 <= k < spf.len() implies #[trigger] spf[k] != dotdot() by {
            if k < spf.len() - 1 {
                assert(spf.drop_last()[k] == spf[k]);
                assert(!has_traversal(spf.drop_last()));
            } else {
                assert(spf[k] == spf.last());
            }
        }
        assert(!has_traversal(spf));
        lemma_resolution_confined(root@, request_path@);
    }
    Ok(out)
}

} // verus!
