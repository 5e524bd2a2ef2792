//! Generated files and their content digest.
use vstd::prelude::*;

use crate::digest::{hex_lower, is_hex_text, sha256_hex, spec_sha256};
use crate::text::str_eq;
use vstd::string::StrSliceExecFns;
use vstd::utf8::encode_utf8;

verus! {

/// One deterministically generated file.
#[derive(Debug, PartialEq, Eq)]
pub struct ArtifactFile {
    pub relative_path: String,
    pub source: String,
}

impl Clone for ArtifactFile {
    fn clone(&self) -> (r: Self)
        ensures
            r == *self,
    {
        ArtifactFile { relative_path: self.relative_path.clone(), source: self.source.clone() }
    }
}

/// All generated files, in path order, and the digest of their contents.
#[derive(Clone, Debug, PartialEq, Eq)]
pub struct ArtifactSet {
    pub files: Vec<ArtifactFile>,
    pub hash: String,
}

/// `a` comes strictly before `b` in the order of `str`: character by
/// character, a proper prefix first.  (UTF-8 keeps the order of code points,
/// so this is also the order of the bytes.)
pub open spec fn text_lt(a: Seq<char>, b: Seq<char>) -> bool
    decreases a.len(),
{
    if b.len() == 0 {
        false
    } else if a.len() == 0 {
        true
    } else if a[0] != b[0] {
        a[0] < b[0]
    } else {
        text_lt(a.drop_first(), b.drop_first())
    }
}

/// The path and source of a file.
pub open spec fn file_text(f: ArtifactFile) -> (Seq<char>, Seq<char>) {
    (f.relative_path@, f.source@)
}

/// The paths and sources of a list of files.
pub open spec fn files_text(files: Seq<ArtifactFile>) -> Seq<(Seq<char>, Seq<char>)> {
    files.map_values(|f: ArtifactFile| file_text(f))
}

/// `f` inserted into a path-sorted list after every file whose path is not after its own.
pub open spec fn insert_file(sorted: Seq<(Seq<char>, Seq<char>)>, f: (Seq<char>, Seq<char>)) -> Seq<(Seq<char>, Seq<char>)>
    decreases sorted.len(),
{
    if sorted.len() == 0 {
        seq![f]
    } else if text_lt(f.0, sorted.last().0) {
        insert_file(sorted.drop_last(), f).push(sorted.last())
    } else {
        sorted.push(f)
    }
}

/// The files sorted by path; files with the same path keep their order.
pub open spec fn sorted_files(files: Seq<(Seq<char>, Seq<char>)>) -> Seq<(Seq<char>, Seq<char>)>
    decreases files.len(),
{
    if files.len() == 0 {
        Seq::empty()
    } else {
        insert_file(sorted_files(files.drop_last()), files.last())
    }
}

/// The bytes of one file as digested: its path, a zero byte, its source, a zero byte.
pub open spec fn file_bytes(f: (Seq<char>, Seq<char>)) -> Seq<u8> {
    encode_utf8(f.0) + seq![0u8] + encode_utf8(f.1) + seq![0u8]
}

/// The bytes of the files as digested, one after the other.
pub open spec fn files_bytes(files: Seq<(Seq<char>, Seq<char>)>) -> Seq<u8>
    decreases files.len(),
{
    if files.len() == 0 {
        Seq::empty()
    } else {
        files_bytes(files.drop_last()) + file_bytes(files.last())
    }
}

/// The index of the first file with the given path.
pub open spec fn file_index(files: Seq<ArtifactFile>, path: Seq<char>) -> Option<int>
    decreases files.len(),
{
    if files.len() == 0 {
        None
    } else if files[0].relative_path@ == path {
        Some(0)
    } else {
        match file_index(files.drop_first(), path) {
            Some(i) => Some(i + 1),
            None => None,
        }
    }
}

fn text_less(a: &str, b: &str) -> (r: bool)
    ensures
        r == text_lt(a@, b@),
{
    let n = a.unicode_len();
    let m = b.unicode_len();
    let mut i: usize = 0;
    assert(a@.skip(0) =~= a@);
    assert(b@.skip(0) =~= b@);
    while i < n && i < m && a.get_char(i) == b.get_char(i)
        invariant
            i <= n,
            i <= m,
            n == a@.len(),
            m == b@.len(),
            text_lt(a@, b@) == text_lt(a@.skip(i as int), b@.skip(i as int)),
        decreases n - i,
    {
        assert(a@.skip(i as int).drop_first() =~= a@.skip(i + 1));
        assert(b@.skip(i as int).drop_first() =~= b@.skip(i + 1));
        i = i + 1;
    }
    if i == m {
        false
    } else if i == n {
        true
    } else {
        let x = a.get_char(i);
        let y = b.get_char(i);
        x < y
    }
}

fn push_bytes(out: &mut Vec<u8>, bytes: &[u8])
    ensures
        final(out)@ == old(out)@ + bytes@,
{
    let mut i: usize = 0;
    while i < bytes.len()
        invariant
            i <= bytes@.len(),
            out@ == old(out)@ + bytes@.take(i as int),
        decreases bytes@.len() - i,
    {
        out.push(bytes[i]);
        assert(bytes@.take(i + 1) =~= bytes@.take(i as int).push(bytes@[i as int]));
        i = i + 1;
    }
    assert(bytes@.take(i as int) =~= bytes@);
}

impl ArtifactSet {
    /// The files in path order (stable for equal paths) and the lowercase
    /// hexadecimal SHA-256 of their paths and sources, each followed by a zero byte.
    pub fn new(files: Vec<ArtifactFile>) -> (r: Self)
        ensures
            files_text(r.files@) == sorted_files(files_text(files@)),
            r.hash@ == hex_lower(spec_sha256(files_bytes(sorted_files(files_text(files@))))),
            r.hash@.len() == 64,
            is_hex_text(r.hash@),
    {
        let ghost texts = files_text(files@);
        let mut sorted: Vec<ArtifactFile> = Vec::new();
        let mut i: usize = 0;
        assert(texts.take(0) =~= Seq::<(Seq<char>, Seq<char>)>::empty());
        assert(files_text(sorted@) =~= Seq::<(Seq<char>, Seq<char>)>::empty());
        while i < files.len()
            invariant
                i <= files@.len(),
                texts == files_text(files@),
                files_text(sorted@) == sorted_files(texts.take(i as int)),
            decreases files@.len() - i,
        {
            let f = files[i].clone();
            assert(texts.take(i + 1).drop_last() =~= texts.take(i as int));
            assert(texts.take(i + 1).last() == file_text(f));
            insert_sorted(&mut sorted, f);
            i = i + 1;
        }
        assert(texts.take(i as int) =~= texts);
        let ghost st = files_text(sorted@);
        let mut bytes: Vec<u8> = Vec::new();
        let mut k: usize = 0;
        assert(st.take(0) =~= Seq::<(Seq<char>, Seq<char>)>::empty());
        while k < sorted.len()
            invariant
                k <= sorted@.len(),
                st == files_text(sorted@),
                bytes@ == files_bytes(st.take(k as int)),
            decreases sorted@.len() - k,
        {
            let f = &sorted[k];
            push_bytes(&mut bytes, f.relative_path.as_str().as_bytes());
            bytes.push(0u8);
            push_bytes(&mut bytes, f.source.as_str().as_bytes());
            bytes.push(0u8);
            assert(st.take(k + 1).drop_last() =~= st.take(k as int));
            assert(st.take(k + 1).last() == file_text(*f));
            assert(bytes@ =~= files_bytes(st.take(k as int)) + file_bytes(file_text(*f)));
            k = k + 1;
        }
        assert(st.take(k as int) =~= st);
        let hash = sha256_hex(bytes.as_slice());
        ArtifactSet { files: sorted, hash }
    }

    /// The first file with the given relative path.
    pub fn file(&self, relative_path: &str) -> (r: Option<&ArtifactFile>)
        ensures
            match file_index(self.files@, relative_path@) {
                Some(i) => r == Some(&self.files@[i]),
                None => r is None,
            },
    {
        let mut i: usize = 0;
        assert(self.files@.skip(0) =~= self.files@);
        while i < self.files.len()
            invariant
                i <= self.files@.len(),
                file_index(self.files@, relative_path@) == match file_index(self.files@.skip(i as int), relative_path@) {
                    Some(j) => Some(j + i),
                    None => None::<int>,
                },
            decreases self.files@.len() - i,
        {
            assert(self.files@.skip(i as int)[0] == self.files@[i as int]);
            assert(self.files@.skip(i as int).drop_first() =~= self.files@.skip(i + 1));
            if str_eq(self.files[i].relative_path.as_str(), relative_path) {
                return Some(&self.files[i]);
            }
            i = i + 1;
        }
        assert(self.files@.skip(i as int) =~= Seq::<ArtifactFile>::empty());
        None
    }
}

/// Inserts `f` after every file of `sorted` whose path is not after its own.
fn insert_sorted(sorted: &mut Vec<ArtifactFile>, f: ArtifactFile)
    ensures
        files_text(final(sorted)@) == insert_file(files_text(old(sorted)@), file_text(f)),
{
    let ghost v0 = sorted@;
    let ghost s0 = files_text(sorted@);
    let ghost ft = file_text(f);
    let n = sorted.len();
    let mut k: usize = n;
    assert(s0.take(n as int) =~= s0);
    assert(s0.skip(n as int) =~= Seq::<(Seq<char>, Seq<char>)>::empty());
    assert(insert_file(s0, ft) =~= insert_file(s0.take(n as int), ft) + s0.skip(n as int));
    while k > 0 && text_less(f.relative_path.as_str(), sorted[k - 1].relative_path.as_str())
        invariant
            k <= n,
            n == s0.len(),
            sorted@ == v0,
            s0 == files_text(v0),
            ft == file_text(f),
            insert_file(s0, ft) == insert_file(s0.take(k as int), ft) + s0.skip(k as int),
        decreases k,
    {
        assert(s0[k - 1].0 == sorted@[k - 1].relative_path@);
        assert(s0.take(k as int).drop_last() =~= s0.take(k - 1));
        assert(s0.take(k as int).last() == s0[k - 1]);
        assert(s0.skip(k - 1) =~= seq![s0[k - 1]] + s0.skip(k as int));
        assert(insert_file(s0.take(k - 1), ft).push(s0[k - 1]) + s0.skip(k as int) =~= insert_file(s0.take(k - 1), ft) + s0.skip(k - 1));
        k = k - 1;
    }
    proof {
        if k > 0 {
            assert(s0[k - 1].0 == v0[k - 1].relative_path@);
            assert(s0.take(k as int).last() == s0[k - 1]);
            assert(insert_file(s0.take(k as int), ft) == s0.take(k as int).push(ft));
        } else {
            assert(s0.take(0) =~= Seq::<(Seq<char>, Seq<char>)>::empty());
        }
    }
    sorted.insert(k, f);
    assert(files_text(sorted@) =~= s0.take(k as int).push(ft) + s0.skip(k as int));
}

/// Text order is irreflexive.
proof fn lemma_text_lt_irreflexive(a: Seq<char>)
    ensures
        !text_lt(a, a),
    decreases a.len(),
{
    if a.len() > 0 {
        lemma_text_lt_irreflexive(a.drop_first());
    }
}

/// Text order is transitive.
proof fn lemma_text_lt_transitive(a: Seq<char>, b: Seq<char>, c: Seq<char>)
    requires
        text_lt(a, b),
        text_lt(b, c),
    ensures
        text_lt(a, c),
    decreases a.len(),
{
    if a.len() > 0 && b.len() > 0 && c.len() > 0 {
        if a[0] == b[0] && b[0] == c[0] {
            lemma_text_lt_transitive(a.drop_first(), b.drop_first(), c.drop_first());
        }
    }
}

/// Two different texts are ordered one way or the other.
proof fn lemma_text_lt_total(a: Seq<char>, b: Seq<char>)
    ensures
        a == b || text_lt(a, b) || text_lt(b, a),
    decreases a.len(),
{
    if a.len() == 0 && b.len() == 0 {
        assert(a =~= b);
    } else if a.len() > 0 && b.len() > 0 && a[0] == b[0] {
        lemma_text_lt_total(a.drop_first(), b.drop_first());
        if a.drop_first() == b.drop_first() {
            assert(a =~= seq![a[0]] + a.drop_first());
            assert(b =~= seq![b[0]] + b.drop_first());
        }
    } else if a.len() > 0 && b.len() > 0 {
        assert(a[0] < b[0] || b[0] < a[0]);
    }
}

/// Text order is asymmetric.
proof fn lemma_text_lt_asymmetric(a: Seq<char>, b: Seq<char>)
    ensures
        text_lt(a, b) ==> !text_lt(b, a),
{
    if text_lt(a, b) && text_lt(b, a) {
        lemma_text_lt_transitive(a, b, a);
        lemma_text_lt_irreflexive(a);
    }
}

/// No two files share a path.
pub open spec fn distinct_paths(s: Seq<(Seq<char>, Seq<char>)>) -> bool {
    forall|i: int, j: int| 0 <= i < s.len() && 0 <= j < s.len() && i != j ==> #[trigger] s[i].0 != #[trigger] s[j].0
}

/// No file comes after a later one.
pub open spec fn path_sorted(s: Seq<(Seq<char>, Seq<char>)>) -> bool {
    forall|i: int, j: int| 0 <= i < j < s.len() ==> !text_lt(#[trigger] s[j].0, #[trigger] s[i].0)
}

/// Inserting a file keeps the files and adds the new one.
proof fn lemma_insert_file_contents(s: Seq<(Seq<char>, Seq<char>)>, f: (Seq<char>, Seq<char>))
    ensures
        insert_file(s, f).len() == s.len() + 1,
        forall|x: (Seq<char>, Seq<char>)| #[trigger] insert_file(s, f).contains(x) <==> (s.contains(x) || x == f),
    decreases s.len(),
{
    let r = insert_file(s, f);
    if s.len() == 0 {
        assert forall|x: (Seq<char>, Seq<char>)| #[trigger] r.contains(x) <==> (s.contains(x) || x == f) by {
            if r.contains(x) {
                let k = choose|k: int| 0 <= k < r.len() && r[k] == x;
                assert(k == 0);
            }
            if x == f {
                assert(r[0] == f);
            }
        }
    } else if text_lt(f.0, s.last().0) {
        let inner = insert_file(s.drop_last(), f);
        lemma_insert_file_contents(s.drop_last(), f);
        assert(r == inner.push(s.last()));
        assert forall|x: (Seq<char>, Seq<char>)| #[trigger] r.contains(x) <==> (s.contains(x) || x == f) by {
            if r.contains(x) {
                let k = choose|k: int| 0 <= k < r.len() && r[k] == x;
                if k == inner.len() {
                    assert(s[s.len() - 1] == x);
                } else {
                    assert(inner[k] == x);
                    assert(inner.contains(x));
                    if s.drop_last().contains(x) {
                        let m = choose|m: int| 0 <= m < s.drop_last().len() && s.drop_last()[m] == x;
                        assert(s[m] == x);
                    }
                }
            }
            if s.contains(x) {
                let m = choose|m: int| 0 <= m < s.len() && s[m] == x;
                if m == s.len() - 1 {
                    assert(r[inner.len() as int] == x);
                } else {
                    assert(s.drop_last()[m] == x);
                    assert(inner.contains(x));
                    let k = choose|k: int| 0 <= k < inner.len() && inner[k] == x;
                    assert(r[k] == x);
                }
            }
            if x == f {
                assert(inner.contains(x));
                let k = choose|k: int| 0 <= k < inner.len() && inner[k] == x;
                assert(r[k] == x);
            }
        }
    } else {
        assert(r == s.push(f));
        assert forall|x: (Seq<char>, Seq<char>)| #[trigger] r.contains(x) <==> (s.contains(x) || x == f) by {
            if r.contains(x) {
                let k = choose|k: int| 0 <= k < r.len() && r[k] == x;
                if k < s.len() {
                    assert(s[k] == x);
                }
            }
            if s.contains(x) {
                let m = choose|m: int| 0 <= m < s.len() && s[m] == x;
                assert(r[m] == x);
            }
            if x == f {
                assert(r[s.len() as int] == x);
            }
        }
    }
}

/// Sorting keeps the files.
proof fn lemma_sorted_files_contents(s: Seq<(Seq<char>, Seq<char>)>)
    ensures
        sorted_files(s).len() == s.len(),
        forall|x: (Seq<char>, Seq<char>)| #[trigger] sorted_files(s).contains(x) <==> s.contains(x),
    decreases s.len(),
{
    if s.len() > 0 {
        let rest = sorted_files(s.drop_last());
        lemma_sorted_files_contents(s.drop_last());
        lemma_insert_file_contents(rest, s.last());
        assert forall|x: (Seq<char>, Seq<char>)| #[trigger] sorted_files(s).contains(x) <==> s.contains(x) by {
            if s.drop_last().contains(x) {
                let m = choose|m: int| 0 <= m < s.drop_last().len() && s.drop_last()[m] == x;
                assert(s[m] == x);
            }
            if s.contains(x) {
                let m = choose|m: int| 0 <= m < s.len() && s[m] == x;
                if m < s.len() - 1 {
                    assert(s.drop_last()[m] == x);
                }
            }
        }
    }
}

/// `a` is not after `b` and `b` is not after `c`: `a` is not after `c`.
proof fn lemma_text_le_transitive(a: Seq<char>, b: Seq<char>, c: Seq<char>)
    requires
        !text_lt(b, a),
        !text_lt(c, b),
    ensures
        !text_lt(c, a),
{
    lemma_text_lt_total(a, b);
    lemma_text_lt_total(b, c);
    if text_lt(c, a) {
        if a == b {
            assert(text_lt(c, b));
        } else if b == c {
            assert(text_lt(b, a));
        } else {
            lemma_text_lt_transitive(a, b, c);
            lemma_text_lt_asymmetric(a, c);
        }
    }
}

/// Inserting into a path-sorted list keeps it path-sorted.
proof fn lemma_insert_file_sorted(s: Seq<(Seq<char>, Seq<char>)>, f: (Seq<char>, Seq<char>))
    requires
        path_sorted(s),
    ensures
        path_sorted(insert_file(s, f)),
    decreases s.len(),
{
    let r = insert_file(s, f);
    if s.len() == 0 {
    } else if text_lt(f.0, s.last().0) {
        let inner = insert_file(s.drop_last(), f);
        assert(path_sorted(s.drop_last())) by {
            assert forall|i: int, j: int| 0 <= i < j < s.drop_last().len() implies !text_lt(
                #[trigger] s.drop_last()[j].0,
                #[trigger] s.drop_last()[i].0,
            ) by {
                assert(s.drop_last()[j] == s[j]);
                assert(s.drop_last()[i] == s[i]);
            }
        }
        lemma_insert_file_sorted(s.drop_last(), f);
        lemma_insert_file_contents(s.drop_last(), f);
        assert(r == inner.push(s.last()));
        assert forall|i: int, j: int| 0 <= i < j < r.len() implies !text_lt(#[trigger] r[j].0, #[trigger] r[i].0) by {
            if j < inner.len() {
                assert(r[j] == inner[j]);
                assert(r[i] == inner[i]);
            } else {
                assert(r[j] == s.last());
                assert(r[i] == inner[i]);
                assert(inner.contains(inner[i]));
                if inner[i] == f {
                    lemma_text_lt_asymmetric(f.0, s.last().0);
                } else {
                    assert(s.drop_last().contains(inner[i]));
                    let m = choose|m: int| 0 <= m < s.drop_last().len() && s.drop_last()[m] == inner[i];
                    assert(s[m] == inner[i]);
                    assert(s[s.len() - 1] == s.last());
                }
            }
        }
    } else {
        assert(r == s.push(f));
        assert forall|i: int, j: int| 0 <= i < j < r.len() implies !text_lt(#[trigger] r[j].0, #[trigger] r[i].0) by {
            if j < s.len() {
                assert(r[j] == s[j]);
                assert(r[i] == s[i]);
            } else {
                assert(r[j] == f);
                assert(r[i] == s[i]);
                if i < s.len() - 1 {
                    assert(s[s.len() - 1] == s.last());
                    lemma_text_le_transitive(s[i].0, s.last().0, f.0);
                }
            }
        }
    }
}

/// Sorting gives a path-sorted list.
proof fn lemma_sorted_files_sorted(s: Seq<(Seq<char>, Seq<char>)>)
    ensures
        path_sorted(sorted_files(s)),
    decreases s.len(),
{
    if s.len() > 0 {
        lemma_sorted_files_sorted(s.drop_last());
        lemma_insert_file_sorted(sorted_files(s.drop_last()), s.last());
    }
}

/// Inserting a file whose path is new into a list without shared paths keeps
/// the paths distinct.
proof fn lemma_insert_file_distinct(s: Seq<(Seq<char>, Seq<char>)>, f: (Seq<char>, Seq<char>))
    requires
        distinct_paths(s),
        forall|k: int| 0 <= k < s.len() ==> (#[trigger] s[k]).0 != f.0,
    ensures
        distinct_paths(insert_file(s, f)),
    decreases s.len(),
{
    let r = insert_file(s, f);
    lemma_insert_file_contents(s, f);
    if s.len() == 0 {
    } else if text_lt(f.0, s.last().0) {
        let inner = insert_file(s.drop_last(), f);
        assert(distinct_paths(s.drop_last())) by {
            assert forall|i: int, j: int|
                0 <= i < s.drop_last().len() && 0 <= j < s.drop_last().len() && i != j implies #[trigger] s.drop_last()[i].0
                != #[trigger] s.drop_last()[j].0 by {
                assert(s.drop_last()[j] == s[j]);
                assert(s.drop_last()[i] == s[i]);
            }
        }
        assert forall|k: int| 0 <= k < s.drop_last().len() implies (#[trigger] s.drop_last()[k]).0 != f.0 by {
            assert(s.drop_last()[k] == s[k]);
        }
        lemma_insert_file_distinct(s.drop_last(), f);
        lemma_insert_file_contents(s.drop_last(), f);
        assert(r == inner.push(s.last()));
        assert forall|i: int, j: int| 0 <= i < r.len() && 0 <= j < r.len() && i != j implies #[trigger] r[i].0
            != #[trigger] r[j].0 by {
            if i < inner.len() && j < inner.len() {
                assert(r[i] == inner[i]);
                assert(r[j] == inner[j]);
            } else {
                let k = if i < inner.len() {
                    i
                } else {
                    j
                };
                assert(r[k] == inner[k]);
                assert(inner.contains(inner[k]));
                if inner[k] != f {
                    assert(s.drop_last().contains(inner[k]));
                    let m = choose|m: int| 0 <= m < s.drop_last().len() && s.drop_last()[m] == inner[k];
                    assert(s[m] == inner[k]);
                    assert(s[s.len() - 1] == s.last());
                }
            }
        }
    } else {
        assert(r == s.push(f));
        assert forall|i: int, j: int| 0 <= i < r.len() && 0 <= j < r.len() && i != j implies #[trigger] r[i].0
            != #[trigger] r[j].0 by {
            if i < s.len() {
                assert(r[i] == s[i]);
            }
            if j < s.len() {
                assert(r[j] == s[j]);
            }
        }
    }
}

/// Sorting a list without shared paths keeps the paths distinct.
proof fn lemma_sorted_files_distinct(s: Seq<(Seq<char>, Seq<char>)>)
    requires
        distinct_paths(s),
    ensures
        distinct_paths(sorted_files(s)),
    decreases s.len(),
{
    if s.len() > 0 {
        let rest = sorted_files(s.drop_last());
        assert(distinct_paths(s.drop_last())) by {
            assert forall|i: int, j: int|
                0 <= i < s.drop_last().len() && 0 <= j < s.drop_last().len() && i != j implies #[trigger] s.drop_last()[i].0
                != #[trigger] s.drop_last()[j].0 by {
                assert(s.drop_last()[j] == s[j]);
                assert(s.drop_last()[i] == s[i]);
            }
        }
        lemma_sorted_files_distinct(s.drop_last());
        lemma_sorted_files_contents(s.drop_last());
        assert forall|k: int| 0 <= k < rest.len() implies (#[trigger] rest[k]).0 != s.last().0 by {
            assert(rest.contains(rest[k]));
            assert(s.drop_last().contains(rest[k]));
            let m = choose|m: int| 0 <= m < s.drop_last().len() && s.drop_last()[m] == rest[k];
            assert(s[m] == rest[k]);
            assert(s[s.len() - 1] == s.last());
        }
        lemma_insert_file_distinct(rest, s.last());
    }
}

/// Two path-sorted lists without shared paths that hold the same files are equal.
proof fn lemma_sorted_unique_files(a: Seq<(Seq<char>, Seq<char>)>, b: Seq<(Seq<char>, Seq<char>)>)
    requires
        path_sorted(a),
        path_sorted(b),
        distinct_paths(a),
        distinct_paths(b),
        forall|x: (Seq<char>, Seq<char>)| #![trigger a.contains(x)] #![trigger b.contains(x)] a.contains(x) <==> b.contains(x),
    ensures
        a == b,
    decreases a.len(),
{
    if a.len() == 0 {
        if b.len() > 0 {
            assert(b.contains(b[0]));
        }
        assert(a =~= b);
    } else if b.len() == 0 {
        assert(a.contains(a[0]));
    } else {
        assert(a.contains(a[0]));
        assert(b.contains(b[0]));
        let k = choose|k: int| 0 <= k < b.len() && b[k] == a[0];
        let l = choose|l: int| 0 <= l < a.len() && a[l] == b[0];
        if k != 0 {
            assert(b[k].0 != b[0].0);
            assert(!text_lt(b[k].0, b[0].0));
            lemma_text_lt_total(b[0].0, b[k].0);
            if l != 0 {
                assert(!text_lt(a[l].0, a[0].0));
                lemma_text_lt_asymmetric(b[0].0, b[k].0);
            }
        }
        assert(k == 0);
        assert(a[0] == b[0]);
        let a1 = a.drop_first();
        let b1 = b.drop_first();
        assert forall|x: (Seq<char>, Seq<char>)| #![trigger a1.contains(x)] #![trigger b1.contains(x)] a1.contains(x) <==> b1.contains(x) by {
            if a1.contains(x) {
                let i = choose|i: int| 0 <= i < a1.len() && a1[i] == x;
                assert(a[i + 1] == x);
                assert(a.contains(x));
                assert(b.contains(x));
                let j = choose|j: int| 0 <= j < b.len() && b[j] == x;
                assert(a[i + 1].0 != a[0].0);
                assert(j != 0);
                assert(b1[j - 1] == x);
            }
            if b1.contains(x) {
                let i = choose|i: int| 0 <= i < b1.len() && b1[i] == x;
                assert(b[i + 1] == x);
                assert(b.contains(x));
                assert(a.contains(x));
                let j = choose|j: int| 0 <= j < a.len() && a[j] == x;
                assert(b[i + 1].0 != b[0].0);
                assert(j != 0);
                assert(a1[j - 1] == x);
            }
        }
        assert(path_sorted(a1)) by {
            assert forall|i: int, j: int| 0 <= i < j < a1.len() implies !text_lt(#[trigger] a1[j].0, #[trigger] a1[i].0) by {
                assert(a1[i] == a[i + 1]);
                assert(a1[j] == a[j + 1]);
            }
        }
        assert(path_sorted(b1)) by {
            assert forall|i: int, j: int| 0 <= i < j < b1.len() implies !text_lt(#[trigger] b1[j].0, #[trigger] b1[i].0) by {
                assert(b1[i] == b[i + 1]);
                assert(b1[j] == b[j + 1]);
            }
        }
        assert(distinct_paths(a1)) by {
            assert forall|i: int, j: int| 0 <= i < a1.len() && 0 <= j < a1.len() && i != j implies #[trigger] a1[i].0
                != #[trigger] a1[j].0 by {
                assert(a1[i] == a[i + 1]);
                assert(a1[j] == a[j + 1]);
            }
        }
        assert(distinct_paths(b1)) by {
            assert forall|i: int, j: int| 0 <= i < b1.len() && 0 <= j < b1.len() && i != j implies #[trigger] b1[i].0
                != #[trigger] b1[j].0 by {
                assert(b1[i] == b[i + 1]);
                assert(b1[j] == b[j + 1]);
            }
        }
        lemma_sorted_unique_files(a1, b1);
        assert(a =~= seq![a[0]] + a1);
        assert(b =~= seq![b[0]] + b1);
    }
}

/// The order of the generated files does not matter: lists of files without
/// shared paths that hold the same files give the same sorted files, and so
/// the same digest.
pub proof fn lemma_file_order_irrelevant(a: Seq<(Seq<char>, Seq<char>)>, b: Seq<(Seq<char>, Seq<char>)>)
    requires
        distinct_paths(a),
        distinct_paths(b),
        forall|x: (Seq<char>, Seq<char>)| #![trigger a.contains(x)] #![trigger b.contains(x)] a.contains(x) <==> b.contains(x),
    ensures
        sorted_files(a) == sorted_files(b),
        files_bytes(sorted_files(a)) == files_bytes(sorted_files(b)),
{
    lemma_sorted_files_contents(a);
    lemma_sorted_files_contents(b);
    lemma_sorted_files_sorted(a);
    lemma_sorted_files_sorted(b);
    lemma_sorted_files_distinct(a);
    lemma_sorted_files_distinct(b);
    assert forall|x: (Seq<char>, Seq<char>)|
        #![trigger sorted_files(a).contains(x)]
        #![trigger sorted_files(b).contains(x)]
        sorted_files(a).contains(x) <==> sorted_files(b).contains(x) by {
        assert(sorted_files(a).contains(x) <==> a.contains(x));
        assert(sorted_files(b).contains(x) <==> b.contains(x));
    }
    lemma_sorted_unique_files(sorted_files(a), sorted_files(b));
}

} // verus!
