//! The order the library sorts footage files by: camera number first,
//! then file name, the name compared lexicographically by character.

use vstd::prelude::*;
use vstd::multiset::Multiset;
use vstd::relations::{sorted_by, total_ordering};

use crate::breadcrumbs::{FileInfo, FileInfoView};

verus! {

/// Lexicographic order on character sequences: the empty sequence comes
/// first, otherwise the first differing character decides.
pub open spec fn lex_leq(x: Seq<char>, y: Seq<char>) -> bool
    decreases x.len(),
{
    if x.len() == 0 {
        true
    } else if y.len() == 0 {
        false
    } else if (x[0] as int) < (y[0] as int) {
        true
    } else if (y[0] as int) < (x[0] as int) {
        false
    } else {
        lex_leq(x.drop_first(), y.drop_first())
    }
}

/// The sort key of a recorded footage file: camera number, then name.
pub open spec fn file_key(f: FileInfoView) -> (int, Seq<char>) {
    (f.camera, f.name)
}

/// Order on sort keys: camera number first, then name.
pub open spec fn key_leq(a: (int, Seq<char>), b: (int, Seq<char>)) -> bool {
    a.0 < b.0 || (a.0 == b.0 && lex_leq(a.1, b.1))
}

/// Order on recorded footage files: by sort key; ties in the key are not
/// ordered further.
pub open spec fn file_leq(a: FileInfoView, b: FileInfoView) -> bool {
    key_leq(file_key(a), file_key(b))
}

/// Lexicographic order is total: one of the two directions always holds.
pub proof fn lemma_lex_total(x: Seq<char>, y: Seq<char>)
    ensures
        lex_leq(x, y) || lex_leq(y, x),
    decreases x.len(),
{
    if x.len() > 0 && y.len() > 0 && x[0] == y[0] {
        lemma_lex_total(x.drop_first(), y.drop_first());
    }
}

/// Lexicographic order is antisymmetric: sequences ordered both ways are
/// equal.
pub proof fn lemma_lex_antisym(x: Seq<char>, y: Seq<char>)
    requires
        lex_leq(x, y),
        lex_leq(y, x),
    ensures
        x == y,
    decreases x.len(),
{
    if x.len() == 0 {
        assert(y.len() == 0);
        assert(x =~= y);
    } else {
        assert(y.len() > 0);
        assert(x[0] == y[0]);
        lemma_lex_antisym(x.drop_first(), y.drop_first());
        assert(x =~= seq![x[0]] + x.drop_first());
        assert(y =~= seq![y[0]] + y.drop_first());
    }
}

/// Lexicographic order is transitive.
pub proof fn lemma_lex_trans(x: Seq<char>, y: Seq<char>, z: Seq<char>)
    requires
        lex_leq(x, y),
        lex_leq(y, z),
    ensures
        lex_leq(x, z),
    decreases x.len(),
{
    if x.len() > 0 && y.len() > 0 && z.len() > 0 && x[0] == y[0] && y[0] == z[0] {
        lemma_lex_trans(x.drop_first(), y.drop_first(), z.drop_first());
    }
}

/// The key order as a relation value, for use with `sorted_by`.
pub open spec fn key_le() -> spec_fn((int, Seq<char>), (int, Seq<char>)) -> bool {
    |a: (int, Seq<char>), b: (int, Seq<char>)| key_leq(a, b)
}

/// The key order is a total ordering.
pub proof fn lemma_key_leq_total_ordering()
    ensures
        total_ordering(key_le()),
{
    let r = key_le();
    assert forall|a: (int, Seq<char>)| #[trigger] r(a, a) by {
        lemma_lex_total(a.1, a.1);
    }
    assert forall|a: (int, Seq<char>), b: (int, Seq<char>)| #[trigger] r(a, b) && #[trigger] r(
        b,
        a,
    ) implies a == b by {
        if a.0 == b.0 {
            lemma_lex_antisym(a.1, b.1);
        }
    }
    assert forall|a: (int, Seq<char>), b: (int, Seq<char>), c: (int, Seq<char>)|
        #[trigger] r(a, b) && #[trigger] r(b, c) implies r(a, c) by {
        if a.0 == b.0 && b.0 == c.0 {
            lemma_lex_trans(a.1, b.1, c.1);
        }
    }
    assert forall|a: (int, Seq<char>), b: (int, Seq<char>)| #[trigger] r(a, b) || #[trigger] r(
        b,
        a,
    ) by {
        if a.0 == b.0 {
            lemma_lex_total(a.1, b.1);
        }
    }
}

/// The file order always holds one way or the other.
pub proof fn lemma_file_leq_total(a: FileInfoView, b: FileInfoView)
    ensures
        file_leq(a, b) || file_leq(b, a),
{
    lemma_lex_total(a.name, b.name);
}

/// The file order is transitive.
pub proof fn lemma_file_leq_trans(a: FileInfoView, b: FileInfoView, c: FileInfoView)
    requires
        file_leq(a, b),
        file_leq(b, c),
    ensures
        file_leq(a, c),
{
    if a.camera == b.camera && b.camera == c.camera {
        lemma_lex_trans(a.name, b.name, c.name);
    }
}

/// When the first `i` characters agree, the order of two sequences is
/// the order of their remainders.
proof fn lemma_lex_skip(x: Seq<char>, y: Seq<char>, i: int)
    requires
        0 <= i <= x.len(),
        i <= y.len(),
        forall|j: int| 0 <= j < i ==> x[j] == y[j],
    ensures
        lex_leq(x, y) == lex_leq(x.skip(i), y.skip(i)),
    decreases i,
{
    if i > 0 {
        assert(x.len() > 0 && y.len() > 0 && x[0] == y[0]);
        assert(x.drop_first().skip(i - 1) =~= x.skip(i));
        assert(y.drop_first().skip(i - 1) =~= y.skip(i));
        lemma_lex_skip(x.drop_first(), y.drop_first(), i - 1);
    } else {
        assert(x.skip(0) =~= x);
        assert(y.skip(0) =~= y);
    }
}

/// Decides the lexicographic order of two strings.
pub fn str_lex_leq(a: &str, b: &str) -> (r: bool)
    ensures
        r == lex_leq(a@, b@),
{
    let na = a.unicode_len();
    let nb = b.unicode_len();
    let mut i: usize = 0;
    while i < na && i < nb
        invariant
            na == a@.len(),
            nb == b@.len(),
            i <= na,
            i <= nb,
            forall|j: int| 0 <= j < i ==> a@[j] == b@[j],
        decreases na - i,
    {
        let ca = a.get_char(i);
        let cb = b.get_char(i);
        if ca < cb {
            proof {
                lemma_lex_skip(a@, b@, i as int);
            }
            return true;
        }
        if cb < ca {
            proof {
                lemma_lex_skip(a@, b@, i as int);
            }
            return false;
        }
        i += 1;
    }
    proof {
        lemma_lex_skip(a@, b@, i as int);
    }
    na <= nb
}

/// Decides the file order of two recorded footage files.
pub fn file_leq_exec(a: &FileInfo, b: &FileInfo) -> (r: bool)
    ensures
        r == file_leq(a@, b@),
{
    if a.camera < b.camera {
        true
    } else if b.camera < a.camera {
        false
    } else {
        str_lex_leq(a.name.as_str(), b.name.as_str())
    }
}

/// Maps a list of recorded footage files to their abstract values.
pub open spec fn files_view(v: Seq<FileInfo>) -> Seq<FileInfoView> {
    v.map_values(|f: FileInfo| f@)
}

/// The file order as a relation value, for use with `sorted_by`.
pub open spec fn file_le() -> spec_fn(FileInfoView, FileInfoView) -> bool {
    |a: FileInfoView, b: FileInfoView| file_leq(a, b)
}

/// Inserting an element anywhere adds exactly it to the elements.
pub proof fn lemma_insert_to_multiset<A>(s: Seq<A>, i: int, x: A)
    requires
        0 <= i <= s.len(),
    ensures
        s.insert(i, x).to_multiset() =~= s.to_multiset().insert(x),
{
    broadcast use Seq::to_multiset_ensures;
    broadcast use vstd::seq_lib::lemma_multiset_commutative;
    broadcast use vstd::multiset::group_multiset_axioms;

    let left = s.subrange(0, i);
    let right = s.subrange(i, s.len() as int);
    left.to_multiset_ensures();
    assert(s.insert(i, x) == left.push(x) + right);
    assert((left.push(x) + right).to_multiset() =~= left.push(x).to_multiset().add(
        right.to_multiset(),
    ));
    assert(left.push(x).to_multiset() =~= left.to_multiset().insert(x));
    assert(s =~= left + right);
    assert(s.to_multiset() =~= left.to_multiset().add(right.to_multiset()));
}

/// Mapping a function commutes with inserting an element.
pub proof fn lemma_insert_map_values<A, B>(s: Seq<A>, i: int, x: A, f: spec_fn(A) -> B)
    requires
        0 <= i <= s.len(),
    ensures
        s.insert(i, x).map_values(f) =~= s.map_values(f).insert(i, f(x)),
{
    s.insert_ensures(i, x);
    s.map_values(f).insert_ensures(i, f(x));
}

/// The sort keys of a list of footage records.
pub open spec fn view_keys(fs: Seq<FileInfoView>) -> Seq<(int, Seq<char>)> {
    fs.map_values(|f: FileInfoView| file_key(f))
}

/// A list sorted by the file order has its keys sorted by the key
/// order.
pub proof fn lemma_sorted_files_sorted_keys(fs: Seq<FileInfoView>)
    requires
        sorted_by(fs, file_le()),
    ensures
        sorted_by(view_keys(fs), key_le()),
{
    assert forall|i: int, j: int| 0 <= i < j < view_keys(fs).len() implies #[trigger] key_le()(
        view_keys(fs)[i],
        view_keys(fs)[j],
    ) by {
        assert(file_le()(fs[i], fs[j]));
    }
}

/// Sorts recorded footage files by camera number, then name.  The result
/// holds exactly the same entries.
pub fn sort_file_infos(v: Vec<FileInfo>) -> (r: Vec<FileInfo>)
    ensures
        files_view(r@).to_multiset() == files_view(v@).to_multiset(),
        view_keys(files_view(r@)).to_multiset() == view_keys(files_view(v@)).to_multiset(),
        sorted_by(files_view(r@), file_le()),
{
    broadcast use Seq::to_multiset_ensures;
    broadcast use vstd::multiset::group_multiset_axioms;

    let mut rest = v;
    let mut out: Vec<FileInfo> = Vec::new();
    let ghost total = files_view(rest@).to_multiset();
    let ghost ktotal = view_keys(files_view(rest@)).to_multiset();
    proof {
        broadcast use vstd::multiset::lemma_multiset_empty_len;

        let e = files_view(out@);
        e.to_multiset_ensures();
        assert(e.to_multiset().len() == 0);
        assert(e.to_multiset() =~= Multiset::empty());
        assert(e.to_multiset().add(total) =~= total);
        let ke = view_keys(e);
        ke.to_multiset_ensures();
        assert(ke.to_multiset().len() == 0);
        assert(ke.to_multiset() =~= Multiset::empty());
        assert(ke.to_multiset().add(ktotal) =~= ktotal);
    }
    while rest.len() > 0
        invariant
            files_view(out@).to_multiset().add(files_view(rest@).to_multiset()) =~= total,
            view_keys(files_view(out@)).to_multiset().add(
                view_keys(files_view(rest@)).to_multiset(),
            ) =~= ktotal,
            sorted_by(files_view(out@), file_le()),
        decreases rest@.len(),
    {
        let ghost out0 = files_view(out@);
        let ghost rest0 = files_view(rest@);
        let x = rest.pop().unwrap();
        proof {
            rest0.to_multiset_ensures();
            assert(files_view(rest@) =~= rest0.drop_last());
            assert(rest0.drop_last() =~= rest0.remove(rest0.len() - 1));
            assert(files_view(rest@).to_multiset() =~= rest0.to_multiset().remove(x@));
            let kr = view_keys(rest0);
            kr.to_multiset_ensures();
            assert(view_keys(files_view(rest@)) =~= kr.drop_last());
            assert(kr.drop_last() =~= kr.remove(kr.len() - 1));
            assert(view_keys(files_view(rest@)).to_multiset() =~= kr.to_multiset().remove(
                file_key(x@),
            ));
        }
        let mut pos: usize = 0;
        while pos < out.len() && file_leq_exec(&out[pos], &x)
            invariant
                files_view(out@) == out0,
                pos <= out@.len(),
                forall|j: int| 0 <= j < pos ==> file_leq(out0[j], x@),
            decreases out@.len() - pos,
        {
            pos += 1;
        }
        proof {
            lemma_insert_to_multiset(files_view(out@), pos as int, x@);
            lemma_insert_map_values(out@, pos as int, x, |f: FileInfo| f@);
            lemma_insert_map_values(
                files_view(out@),
                pos as int,
                x@,
                |f: FileInfoView| file_key(f),
            );
            lemma_insert_to_multiset(view_keys(files_view(out@)), pos as int, file_key(x@));
            if pos < out0.len() {
                assert(!file_leq(out0[pos as int], x@));
                lemma_file_leq_total(out0[pos as int], x@);
                assert forall|j: int| pos <= j < out0.len() implies file_leq(x@, out0[j]) by {
                    if j > pos {
                        assert(file_le()(out0[pos as int], out0[j]));
                        lemma_file_leq_trans(x@, out0[pos as int], out0[j]);
                    }
                }
            }
            let newv = out0.insert(pos as int, x@);
            out0.insert_ensures(pos as int, x@);
            assert forall|a: int, b: int| 0 <= a < b < newv.len() implies file_leq(
                newv[a],
                newv[b],
            ) by {
                if a < pos && b < pos {
                    assert(newv[a] == out0[a] && newv[b] == out0[b]);
                    assert(file_le()(out0[a], out0[b]));
                } else if a < pos && b == pos {
                    assert(newv[a] == out0[a] && newv[b] == x@);
                } else if a == pos && b > pos {
                    assert(newv[a] == x@ && newv[b] == out0[b - 1]);
                } else if a < pos && b > pos {
                    assert(newv[a] == out0[a] && newv[b] == out0[b - 1]);
                    if a < b - 1 {
                        assert(file_le()(out0[a], out0[b - 1]));
                    }
                } else {
                    assert(newv[a] == out0[a - 1] && newv[b] == out0[b - 1]);
                    assert(file_le()(out0[a - 1], out0[b - 1]));
                }
            }
            assert(sorted_by(newv, file_le()));
        }
        out.insert(pos, x);
    }
    proof {
        assert(files_view(rest@).to_multiset().len() == 0);
        assert(files_view(out@).to_multiset() =~= total);
        assert(view_keys(files_view(rest@)).to_multiset().len() == 0);
        assert(view_keys(files_view(out@)).to_multiset() =~= ktotal);
    }
    out
}

} // verus!
