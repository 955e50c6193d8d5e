//! Relative paths between mapped files.
//!
//! A link from one saved page to another is rewritten to the difference
//! between the target's mapped path and the source page's directory, so a
//! mirrored site can be moved as a unit. The difference walks up with
//! `..` past the uncommon part of the source directory and then down the
//! target's remaining segments.

use vstd::prelude::*;

use crate::strutil::string_push;

verus! {

/// Index of the first `/` in `s`, or `-1` if there is none.
pub open spec fn first_slash(s: Seq<char>) -> int
    decreases s.len(),
{
    if s.len() == 0 {
        -1
    } else if s[0] == '/' {
        0
    } else if first_slash(s.skip(1)) < 0 {
        -1
    } else {
        1 + first_slash(s.skip(1))
    }
}

/// Segments of `s`, split on `/`.
pub open spec fn split_slash(s: Seq<char>) -> Seq<Seq<char>>
    decreases s.len(),
{
    let i = first_slash(s);
    if i < 0 || i >= s.len() {
        seq![s]
    } else {
        seq![s.take(i)] + split_slash(s.skip(i + 1))
    }
}

/// Segments joined with `/`.
pub open spec fn join_slash(segs: Seq<Seq<char>>) -> Seq<char>
    decreases segs.len(),
{
    if segs.len() == 0 {
        Seq::empty()
    } else if segs.len() == 1 {
        segs[0]
    } else {
        segs[0] + seq!['/'] + join_slash(segs.skip(1))
    }
}

/// The parent-step segment.
pub open spec fn dotdot() -> Seq<char> {
    seq!['.', '.']
}

/// Length of the common segment prefix of `a` and `b`.
pub open spec fn common_len(a: Seq<Seq<char>>, b: Seq<Seq<char>>) -> int
    decreases a.len(),
{
    if a.len() == 0 || b.len() == 0 || a[0] != b[0] {
        0
    } else {
        1 + common_len(a.skip(1), b.skip(1))
    }
}

/// Segments of the relative path from directory `base` to `dest`: one
/// `..` per uncommon segment of `base`, then the uncommon segments of
/// `dest`.
pub open spec fn rel_segs(dest: Seq<Seq<char>>, base: Seq<Seq<char>>) -> Seq<Seq<char>> {
    let k = common_len(dest, base);
    Seq::new((base.len() - k) as nat, |i: int| dotdot()) + dest.skip(k)
}

/// The relative path from directory `base` to `dest`, as text.
pub open spec fn rel_path_spec(dest: Seq<char>, base: Seq<char>) -> Seq<char> {
    join_slash(rel_segs(split_slash(dest), split_slash(base)))
}

/// Interpretation of a relative path: starting from directory `base`,
/// `..` pops a segment and any other segment is entered.
pub open spec fn resolve_segs(base: Seq<Seq<char>>, rel: Seq<Seq<char>>) -> Seq<Seq<char>>
    decreases rel.len(),
{
    if rel.len() == 0 {
        base
    } else if rel[0] == dotdot() {
        resolve_segs(base.drop_last(), rel.skip(1))
    } else {
        resolve_segs(base.push(rel[0]), rel.skip(1))
    }
}

proof fn lemma_common_len_prefix(a: Seq<Seq<char>>, b: Seq<Seq<char>>)
    ensures
        0 <= common_len(a, b) <= a.len(),
        common_len(a, b) <= b.len(),
        a.take(common_len(a, b)) == b.take(common_len(a, b)),
    decreases a.len(),
{
    let k = common_len(a, b);
    if a.len() == 0 || b.len() == 0 || a[0] != b[0] {
        assert(a.take(0) =~= b.take(0));
    } else {
        lemma_common_len_prefix(a.skip(1), b.skip(1));
        assert(a.skip(1).take(k - 1) == b.skip(1).take(k - 1));
        assert(a.take(k) =~= seq![a[0]] + a.skip(1).take(k - 1));
        assert(b.take(k) =~= seq![b[0]] + b.skip(1).take(k - 1));
    }
}

proof fn lemma_resolve_pops(base: Seq<Seq<char>>, m: int, rest: Seq<Seq<char>>)
    requires
        0 <= m <= base.len(),
    ensures
        resolve_segs(base, Seq::new(m as nat, |i: int| dotdot()) + rest) == resolve_segs(
            base.take(base.len() - m),
            rest,
        ),
    decreases m,
{
    let ups = Seq::new(m as nat, |i: int| dotdot());
    if m == 0 {
        assert(ups + rest =~= rest);
        assert(base.take(base.len() - 0) =~= base);
    } else {
        assert((ups + rest)[0] == dotdot());
        assert((ups + rest).skip(1) =~= Seq::new((m - 1) as nat, |i: int| dotdot()) + rest);
        assert(base.drop_last() =~= base.take(base.len() - 1));
        lemma_resolve_pops(base.take(base.len() - 1), m - 1, rest);
        assert(base.take(base.len() - 1).take(base.len() - m) =~= base.take(base.len() - m));
    }
}

proof fn lemma_resolve_appends(base: Seq<Seq<char>>, rest: Seq<Seq<char>>)
    requires
        forall|i: int| 0 <= i < rest.len() ==> rest[i] != dotdot(),
    ensures
        resolve_segs(base, rest) == base + rest,
    decreases rest.len(),
{
    if rest.len() == 0 {
        assert(base + rest =~= base);
    } else {
        lemma_resolve_appends(base.push(rest[0]), rest.skip(1));
        assert(base.push(rest[0]) + rest.skip(1) =~= base + rest);
    }
}

/// Round-trip law for link rewriting, at the segment level: interpreting
/// the relative path from directory `base` to `dest` starting at `base`
/// lands exactly on `dest`, provided neither spells a parent step of its
/// own.
pub proof fn lemma_rel_segs_round_trip(dest: Seq<Seq<char>>, base: Seq<Seq<char>>)
    requires
        forall|i: int| 0 <= i < dest.len() ==> dest[i] != dotdot(),
    ensures
        resolve_segs(base, rel_segs(dest, base)) == dest,
{
    let k = common_len(dest, base);
    lemma_common_len_prefix(dest, base);
    lemma_resolve_pops(base, base.len() - k, dest.skip(k));
    assert(base.take(base.len() - (base.len() - k)) =~= base.take(k));
    lemma_resolve_appends(base.take(k), dest.skip(k));
    assert(base.take(k) + dest.skip(k) =~= dest.take(k) + dest.skip(k));
    assert(dest.take(k) + dest.skip(k) =~= dest);
}

proof fn lemma_first_slash_none(s: Seq<char>)
    requires
        forall|j: int| 0 <= j < s.len() ==> s[j] != '/',
    ensures
        first_slash(s) == -1,
    decreases s.len(),
{
    if s.len() > 0 {
        lemma_first_slash_none(s.skip(1));
    }
}

proof fn lemma_first_slash_at(s: Seq<char>, i: int)
    requires
        0 <= i < s.len(),
        s[i] == '/',
        forall|j: int| 0 <= j < i ==> s[j] != '/',
    ensures
        first_slash(s) == i,
    decreases i,
{
    if i == 0 {
    } else {
        lemma_first_slash_at(s.skip(1), i - 1);
    }
}

/// Joining nonempty, slash-free segments and splitting again returns the
/// same segments.
proof fn lemma_split_join(segs: Seq<Seq<char>>)
    requires
        segs.len() > 0,
        forall|i: int| 0 <= i < segs.len() ==> #[trigger] segs[i].len() > 0,
        forall|i: int, j: int|
            0 <= i < segs.len() && 0 <= j < segs[i].len() ==> #[trigger] segs[i][j] != '/',
    ensures
        split_slash(join_slash(segs)) == segs,
    decreases segs.len(),
{
    let s = join_slash(segs);
    if segs.len() == 1 {
        assert(forall|j: int| 0 <= j < s.len() ==> s[j] != '/');
        lemma_first_slash_none(s);
        assert(split_slash(s) =~= seq![segs[0]]);
        assert(seq![segs[0]] =~= segs);
    } else {
        let head = segs[0];
        let tail = join_slash(segs.skip(1));
        assert(s == head + seq!['/'] + tail);
        assert(s[head.len() as int] == '/');
        assert(forall|j: int| 0 <= j < head.len() ==> s[j] == head[j] && s[j] != '/');
        lemma_first_slash_at(s, head.len() as int);
        assert(s.take(head.len() as int) =~= head);
        assert(s.skip(head.len() + 1 as int) =~= tail);
        lemma_split_join(segs.skip(1));
        assert(split_slash(s) =~= seq![head] + segs.skip(1));
        assert(seq![head] + segs.skip(1) =~= segs);
    }
}

/// Round-trip law for link rewriting, at the path level: splitting the
/// rewritten link and interpreting it from the source directory lands
/// exactly on the target's segments. Holds when neither path has an
/// empty, slash-bearing or `..` segment and the two differ.
pub proof fn lemma_rel_path_round_trip(dest: Seq<char>, base: Seq<char>)
    requires
        forall|i: int| 0 <= i < split_slash(dest).len() ==> #[trigger] split_slash(dest)[i].len() > 0
            && split_slash(dest)[i] != dotdot(),
        forall|i: int| 0 <= i < split_slash(base).len() ==> #[trigger] split_slash(base)[i].len() > 0
            && split_slash(base)[i] != dotdot(),
        split_slash(dest) != split_slash(base),
    ensures
        resolve_segs(split_slash(base), split_slash(rel_path_spec(dest, base))) == split_slash(
            dest,
        ),
{
    let db = split_slash(dest);
    let bb = split_slash(base);
    let k = common_len(db, bb);
    lemma_common_len_prefix(db, bb);
    let rel = rel_segs(db, bb);
    assert(rel.len() > 0) by {
        if rel.len() == 0 {
            assert(bb.len() == k && db.len() <= k) by {
                assert(Seq::new((bb.len() - k) as nat, |i: int| dotdot()).len() == bb.len() - k);
            };
            lemma_common_len_min(db, bb);
            assert(db =~= bb);
        }
    }
    assert(forall|i: int| 0 <= i < rel.len() ==> #[trigger] rel[i].len() > 0) by {
        assert(dotdot().len() == 2);
    }
    assert(forall|i: int, j: int| 0 <= i < rel.len() && 0 <= j < rel[i].len()
        ==> #[trigger] rel[i][j] != '/') by {
        lemma_split_no_slash(dest);
        assert(forall|i: int| 0 <= i < rel.len() && i < bb.len() - k ==> rel[i] == dotdot());
    }
    lemma_split_join(rel);
    lemma_rel_segs_round_trip(db, bb);
}

proof fn lemma_common_len_min(a: Seq<Seq<char>>, b: Seq<Seq<char>>)
    ensures
        common_len(a, b) <= a.len(),
        common_len(a, b) <= b.len(),
        common_len(a, b) == a.len() && common_len(a, b) == b.len() ==> a == b,
    decreases a.len(),
{
    lemma_common_len_prefix(a, b);
    if common_len(a, b) == a.len() && common_len(a, b) == b.len() {
        assert(a.take(a.len() as int) =~= a);
        assert(b.take(b.len() as int) =~= b);
    }
}

/// Every segment that splitting produces is slash-free.
proof fn lemma_split_no_slash(s: Seq<char>)
    ensures
        forall|i: int, j: int|
            0 <= i < split_slash(s).len() && 0 <= j < split_slash(s)[i].len()
                ==> #[trigger] split_slash(s)[i][j] != '/',
    decreases s.len(),
{
    let fs = first_slash(s);
    lemma_first_slash_bound(s);
    let parts = split_slash(s);
    if fs < 0 || fs >= s.len() {
        assert(parts == seq![s]);
        assert forall|i: int, j: int|
            0 <= i < parts.len() && 0 <= j < parts[i].len() implies #[trigger] parts[i][j]
            != '/' by {
            assert(parts[i] == s);
        }
    } else {
        lemma_split_no_slash(s.skip(fs + 1));
        let head = s.take(fs);
        let rest = split_slash(s.skip(fs + 1));
        assert(parts == seq![head] + rest);
        assert forall|i: int, j: int|
            0 <= i < parts.len() && 0 <= j < parts[i].len() implies #[trigger] parts[i][j]
            != '/' by {
            if i == 0 {
                assert(parts[0] == head);
                assert(head[j] == s[j]);
            } else {
                assert(parts[i] == rest[i - 1]);
            }
        }
    }
}

proof fn lemma_first_slash_bound(s: Seq<char>)
    ensures
        first_slash(s) < 0 ==> forall|j: int| 0 <= j < s.len() ==> s[j] != '/',
        first_slash(s) >= 0 ==> first_slash(s) < s.len() && s[first_slash(s)] == '/' && forall|
            j: int,
        | 0 <= j < first_slash(s) ==> s[j] != '/',
    decreases s.len(),
{
    if s.len() == 0 {
    } else if s[0] == '/' {
    } else {
        lemma_first_slash_bound(s.skip(1));
        let f1 = first_slash(s.skip(1));
        if f1 >= 0 {
            assert(s[1 + f1] == s.skip(1)[f1]);
            assert forall|j: int| 0 <= j < 1 + f1 implies s[j] != '/' by {
                if j > 0 {
                    assert(s[j] == s.skip(1)[j - 1]);
                }
            }
        } else {
            assert forall|j: int| 0 <= j < s.len() implies s[j] != '/' by {
                if j > 0 {
                    assert(s[j] == s.skip(1)[j - 1]);
                }
            }
        }
    }
}

/// Split a path into its `/`-separated segments.
pub fn split_path(s: &str) -> (r: Vec<String>)
    ensures
        r.deep_view() == split_slash(s@),
{
    let n = s.unicode_len();
    let mut out: Vec<String> = Vec::new();
    let mut start: usize = 0;
    let mut i: usize = 0;
    proof {
        assert(s@.skip(0) =~= s@);
    }
    while i < n
        invariant
            n == s@.len(),
            start <= i <= n,
            forall|j: int| start <= j < i ==> s@[j] != '/',
            split_slash(s@) =~= out.deep_view() + split_slash(s@.skip(start as int)),
        decreases n - i,
    {
        if s.get_char(i) == '/' {
            let seg = s.substring_char(start, i).to_owned();
            proof {
                let tail = s@.skip(start as int);
                assert(tail[i - start] == '/');
                assert(forall|j: int| 0 <= j < i - start ==> tail[j] == s@[start + j]);
                lemma_first_slash_at(tail, i - start);
                assert(tail.take(i - start) =~= seg@);
                assert(tail.skip(i - start + 1) =~= s@.skip(i + 1));
                assert(out.deep_view().push(seg@) =~= out.deep_view() + seq![seg@]);
            }
            out.push(seg);
            start = i + 1;
        }
        i += 1;
    }
    let seg = s.substring_char(start, n).to_owned();
    proof {
        let tail = s@.skip(start as int);
        lemma_first_slash_none(tail);
        assert(tail =~= seg@);
        assert(out.deep_view().push(seg@) =~= out.deep_view() + seq![seg@]);
    }
    out.push(seg);
    out
}

proof fn lemma_join_snoc(segs: Seq<Seq<char>>, k: int)
    requires
        1 <= k < segs.len(),
    ensures
        join_slash(segs.take(k + 1)) == join_slash(segs.take(k)) + seq!['/'] + segs[k],
    decreases k,
{
    if k == 1 {
        assert(segs.take(2)[0] == segs[0]);
        assert(segs.take(2).skip(1) =~= seq![segs[1]]);
        assert(segs.take(1) =~= seq![segs[0]]);
        assert(join_slash(seq![segs[0]]) == segs[0]);
        assert(join_slash(seq![segs[1]]) == segs[1]);
        assert(join_slash(segs.take(2)) == segs.take(2)[0] + seq!['/'] + join_slash(
            segs.take(2).skip(1),
        ));
    } else {
        lemma_join_snoc(segs.skip(1), k - 1);
        assert(segs.take(k + 1).skip(1) =~= segs.skip(1).take(k));
        assert(segs.take(k).skip(1) =~= segs.skip(1).take(k - 1));
        assert(segs.take(k + 1)[0] == segs[0]);
        assert(segs.take(k)[0] == segs[0]);
        assert(segs.skip(1)[k - 1] == segs[k]);
        assert(segs.take(k + 1).len() > 1);
        assert(segs.take(k).len() > 1);
    }
}

/// Join segments with `/`.
pub fn join_path(segs: &Vec<String>) -> (r: String)
    ensures
        r@ == join_slash(segs.deep_view()),
{
    let mut out = String::new();
    let n = segs.len();
    let mut i: usize = 0;
    while i < n
        invariant
            n == segs.deep_view().len(),
            i <= n,
            out@ == join_slash(segs.deep_view().take(i as int)),
        decreases n - i,
    {
        if i > 0 {
            string_push(&mut out, '/');
        }
        out.append(segs[i].as_str());
        proof {
            let sv = segs.deep_view();
            if i == 0 {
                assert(sv.take(1) =~= seq![sv[0]]);
            } else {
                lemma_join_snoc(sv, i as int);
            }
        }
        i += 1;
    }
    proof {
        assert(segs.deep_view().take(n as int) =~= segs.deep_view());
    }
    out
}

/// The relative path from directory `base_dir` to `dest`.
pub fn relative_path(dest: &str, base_dir: &str) -> (r: String)
    ensures
        r@ == rel_path_spec(dest@, base_dir@),
{
    let d = split_path(dest);
    let b = split_path(base_dir);
    let dn = d.len();
    let bn = b.len();
    let mut k: usize = 0;
    loop
        invariant
            dn == d.deep_view().len(),
            bn == b.deep_view().len(),
            k <= dn,
            k <= bn,
            forall|j: int| 0 <= j < k ==> d.deep_view()[j] == b.deep_view()[j],
        ensures
            k <= dn,
            k <= bn,
            forall|j: int| 0 <= j < k ==> d.deep_view()[j] == b.deep_view()[j],
            k == dn || k == bn || d.deep_view()[k as int] != b.deep_view()[k as int],
        decreases dn - k,
    {
        if k >= dn || k >= bn {
            break;
        }
        if !(d[k] == b[k]) {
            break;
        }
        k += 1;
    }
    proof {
        lemma_common_len_take(d.deep_view(), b.deep_view(), k as int);
    }
    let mut segs: Vec<String> = Vec::new();
    let mut up: usize = k;
    while up < bn
        invariant
            bn == b.deep_view().len(),
            k <= up <= bn,
            segs@.len() == up - k,
            forall|i: int| 0 <= i < segs@.len() ==> #[trigger] segs@[i]@ == dotdot(),
        decreases bn - up,
    {
        let step: String = "..".to_owned();
        proof {
            reveal_strlit("..");
            assert(step@ =~= dotdot());
        }
        segs.push(step);
        up += 1;
    }
    let mut down: usize = k;
    while down < dn
        invariant
            dn == d.deep_view().len(),
            k <= down <= dn,
            k <= bn,
            segs@.len() == (bn - k) + (down - k),
            forall|i: int| 0 <= i < bn - k ==> #[trigger] segs@[i]@ == dotdot(),
            forall|i: int|
                bn - k <= i < segs@.len() ==> #[trigger] segs@[i]@ == d.deep_view()[k + i - (bn
                    - k)],
        decreases dn - down,
    {
        segs.push(d[down].clone());
        down += 1;
    }
    proof {
        assert(segs.deep_view() =~= rel_segs(d.deep_view(), b.deep_view()));
    }
    join_path(&segs)
}

proof fn lemma_common_len_take(a: Seq<Seq<char>>, b: Seq<Seq<char>>, k: int)
    requires
        0 <= k <= a.len(),
        k <= b.len(),
        forall|j: int| 0 <= j < k ==> a[j] == b[j],
        k < a.len() && k < b.len() ==> a[k] != b[k],
        k == a.len() || k == b.len() || a[k] != b[k],
    ensures
        common_len(a, b) == k,
    decreases k,
{
    if k == 0 {
    } else {
        assert(a[0] == b[0]);
        lemma_common_len_take(a.skip(1), b.skip(1), k - 1);
    }
}

} // verus!
