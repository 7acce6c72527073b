//! An in-memory file system: a map from file names to contents, kept in
//! name order.

use vstd::prelude::*;
use crate::fs::vfs::{FileSystem, FsError};
use crate::text::{trim, trim_spec, contains_char};

verus! {

/// `a` sorts before `b`, comparing code points from position `i` on (a
/// proper prefix sorts first).
pub open spec fn name_lt_from(a: Seq<char>, b: Seq<char>, i: int) -> bool
    decreases a.len() - i,
{
    if i >= a.len() {
        i < b.len()
    } else if i >= b.len() {
        false
    } else if a[i] != b[i] {
        (a[i] as u32) < (b[i] as u32)
    } else {
        name_lt_from(a, b, i + 1)
    }
}

/// Name order: by code point, which is the byte order of UTF-8 strings.
pub open spec fn name_lt(a: Seq<char>, b: Seq<char>) -> bool {
    name_lt_from(a, b, 0)
}

proof fn lemma_name_order_from(a: Seq<char>, b: Seq<char>, i: int)
    requires
        0 <= i,
        i <= a.len(),
        i <= b.len(),
        forall|j: int| 0 <= j < i ==> a[j] == b[j],
    ensures
        a != b ==> name_lt_from(a, b, i) || name_lt_from(b, a, i),
        !(name_lt_from(a, b, i) && name_lt_from(b, a, i)),
        a == b ==> !name_lt_from(a, b, i),
    decreases a.len() - i,
{
    if i < a.len() && i < b.len() {
        if a[i] == b[i] {
            lemma_name_order_from(a, b, i + 1);
        } else {
            vstd::utf8::char_u32_cast(a[i], a[i] as u32);
            vstd::utf8::char_u32_cast(b[i], b[i] as u32);
            assert((a[i] as u32) != (b[i] as u32));
        }
    }
    if i == a.len() && i == b.len() {
        assert(a =~= b);
    }
}

/// Name order is total and strict.
pub proof fn lemma_name_order(a: Seq<char>, b: Seq<char>)
    ensures
        a != b ==> name_lt(a, b) || name_lt(b, a),
        !(name_lt(a, b) && name_lt(b, a)),
        !name_lt(a, a),
{
    lemma_name_order_from(a, b, 0);
    lemma_name_order_from(a, a, 0);
}

/// Whether `a` sorts before `b`.
pub fn name_less(a: &str, b: &str) -> (r: bool)
    ensures
        r == name_lt(a@, b@),
{
    let na = a.unicode_len();
    let nb = b.unicode_len();
    let mut i: usize = 0;
    while i < na && i < nb
        invariant
            na == a@.len(),
            nb == b@.len(),
            i <= na,
            i <= nb,
            name_lt_from(a@, b@, i as int) == name_lt(a@, b@),
        decreases na - i,
    {
        let ca = a.get_char(i);
        let cb = b.get_char(i);
        if ca != cb {
            return (ca as u32) < (cb as u32);
        }
        i = i + 1;
    }
    i < nb
}

/// A valid file name: the path without surrounding whitespace, not empty
/// and without `/` or `\`.
pub open spec fn name_ok(path: Seq<char>) -> bool {
    let t = trim_spec(path);
    t.len() > 0 && !t.contains('/') && !t.contains('\\')
}

/// The file name a path stands for.
pub fn normalize(path: &str) -> (r: Result<String, FsError>)
    ensures
        name_ok(path@) ==> (r matches Ok(k) && k@ == trim_spec(path@)),
        !name_ok(path@) ==> r == Err::<String, FsError>(FsError::InvalidName),
{
    let t = trim(path);
    if t.unicode_len() == 0 || contains_char(t, '/') || contains_char(t, '\\') {
        return Err(FsError::InvalidName);
    }
    Ok(t.to_owned())
}

/// Names strictly increasing.
pub open spec fn sorted_names(s: Seq<(Seq<char>, Seq<u8>)>) -> bool {
    forall|i: int, j: int| 0 <= i < j < s.len() ==> name_lt((#[trigger] s[i]).0, (#[trigger] s[j]).0)
}

/// The map the entries stand for.
pub open spec fn entries_map(s: Seq<(Seq<char>, Seq<u8>)>) -> Map<Seq<char>, Seq<u8>> {
    Map::new(
        |k: Seq<char>| exists|i: int| 0 <= i < s.len() && (#[trigger] s[i]).0 == k,
        |k: Seq<char>| s[choose|i: int| 0 <= i < s.len() && (#[trigger] s[i]).0 == k].1,
    )
}

/// Names and contents of stored files.
pub open spec fn entries_of(v: Seq<(String, Vec<u8>)>) -> Seq<(Seq<char>, Seq<u8>)> {
    v.map_values(|e: (String, Vec<u8>)| (e.0@, e.1@))
}

/// The in-memory file system.
pub struct RamFs {
    files: Vec<(String, Vec<u8>)>,
}

impl RamFs {
    /// The files in name order.
    pub closed spec fn entries(&self) -> Seq<(Seq<char>, Seq<u8>)> {
        entries_of(self.files@)
    }

    #[verifier::type_invariant]
    closed spec fn wf(&self) -> bool {
        sorted_names(self.entries())
    }

    /// File names and contents.
    pub open spec fn view(&self) -> Map<Seq<char>, Seq<u8>> {
        entries_map(self.entries())
    }

    /// No files.
    pub fn new() -> (r: Self)
        ensures
            r@ == Map::<Seq<char>, Seq<u8>>::empty(),
            r.entries().len() == 0,
    {
        let r = RamFs { files: Vec::new() };
        assert(r@ =~= Map::<Seq<char>, Seq<u8>>::empty());
        r
    }
}

impl RamFs {
    /// The file named `key`, if any.
    fn find(&self, key: &String) -> (r: Option<usize>)
        ensures
            match r {
                Some(i) => i < self.entries().len() && self.entries()[i as int].0 == key@,
                None => forall|j: int| 0 <= j < self.entries().len() ==> (#[trigger] self.entries()[j]).0 != key@,
            },
    {
        let mut i: usize = 0;
        while i < self.files.len()
            invariant
                i <= self.files@.len(),
                forall|j: int| 0 <= j < i ==> (#[trigger] self.entries()[j]).0 != key@,
            decreases self.files@.len() - i,
        {
            if self.files[i].0 == *key {
                return Some(i);
            }
            i = i + 1;
        }
        None
    }

    /// Where a file named `key` sorts among the files.
    fn position(&self, key: &String) -> (p: usize)
        ensures
            p <= self.entries().len(),
            forall|j: int| 0 <= j < p ==> name_lt((#[trigger] self.entries()[j]).0, key@),
            p < self.entries().len() ==> !name_lt(self.entries()[p as int].0, key@),
    {
        let mut i: usize = 0;
        while i < self.files.len() && name_less(self.files[i].0.as_str(), key.as_str())
            invariant
                i <= self.files@.len(),
                forall|j: int| 0 <= j < i ==> name_lt((#[trigger] self.entries()[j]).0, key@),
            decreases self.files@.len() - i,
        {
            i = i + 1;
        }
        i
    }
}

proof fn lemma_map_at(s: Seq<(Seq<char>, Seq<u8>)>, i: int)
    requires
        sorted_names(s),
        0 <= i < s.len(),
    ensures
        entries_map(s).dom().contains(s[i].0),
        entries_map(s)[s[i].0] == s[i].1,
{
    let m = entries_map(s);
    assert(m.dom().contains(s[i].0));
    let j = choose|j: int| 0 <= j < s.len() && (#[trigger] s[j]).0 == s[i].0;
    if j != i {
        if j < i {
            assert(name_lt(s[j].0, s[i].0));
        } else {
            assert(name_lt(s[i].0, s[j].0));
        }
        lemma_name_order(s[i].0, s[i].0);
    }
}

/// After replacing the contents at `i`, the map changes only there.
proof fn lemma_map_set(s: Seq<(Seq<char>, Seq<u8>)>, i: int, v: Seq<u8>)
    requires
        sorted_names(s),
        0 <= i < s.len(),
    ensures
        sorted_names(s.update(i, (s[i].0, v))),
        entries_map(s.update(i, (s[i].0, v))) == entries_map(s).insert(s[i].0, v),
{
    let t = s.update(i, (s[i].0, v));
    assert(sorted_names(t)) by {
        assert forall|a: int, b: int| 0 <= a < b < t.len() implies name_lt((#[trigger] t[a]).0, (#[trigger] t[b]).0) by {
            assert(name_lt(s[a].0, s[b].0));
        }
    }
    let m = entries_map(t);
    let m0 = entries_map(s).insert(s[i].0, v);
    assert forall|k: Seq<char>| m.dom().contains(k) <==> m0.dom().contains(k) by {
        if m.dom().contains(k) {
            let j = choose|j: int| 0 <= j < t.len() && (#[trigger] t[j]).0 == k;
            assert(s[j].0 == k);
        }
        if m0.dom().contains(k) && k != s[i].0 {
            let j = choose|j: int| 0 <= j < s.len() && (#[trigger] s[j]).0 == k;
            assert(t[j].0 == k);
        }
        if k == s[i].0 {
            assert(t[i].0 == k);
        }
    }
    assert forall|k: Seq<char>| m.dom().contains(k) implies m[k] == m0[k] by {
        let j = choose|j: int| 0 <= j < t.len() && (#[trigger] t[j]).0 == k;
        lemma_map_at(t, j);
        if j != i {
            lemma_map_at(s, j);
            if j < i {
                assert(name_lt(s[j].0, s[i].0));
            } else {
                assert(name_lt(s[i].0, s[j].0));
            }
            lemma_name_order(k, k);
        }
    }
    assert(m =~= m0);
}

/// Inserting a new name where it sorts adds it to the map.
proof fn lemma_map_insert(s: Seq<(Seq<char>, Seq<u8>)>, p: int, k: Seq<char>, v: Seq<u8>)
    requires
        sorted_names(s),
        0 <= p <= s.len(),
        forall|j: int| 0 <= j < p ==> name_lt((#[trigger] s[j]).0, k),
        p < s.len() ==> name_lt(k, s[p].0),
    ensures
        sorted_names(s.insert(p, (k, v))),
        entries_map(s.insert(p, (k, v))) == entries_map(s).insert(k, v),
        !entries_map(s).dom().contains(k),
{
    let t = s.insert(p, (k, v));
    assert forall|a: int, b: int| 0 <= a < b < t.len() implies name_lt((#[trigger] t[a]).0, (#[trigger] t[b]).0) by {
        if b < p {
            assert(name_lt(s[a].0, s[b].0));
        } else if b == p {
        } else if a == p {
            if b - 1 > p {
                assert(name_lt(s[p].0, s[b - 1].0));
                lemma_name_trans(k, s[p].0, s[b - 1].0);
            }
        } else if a < p {
            assert(name_lt(s[a].0, s[b - 1].0));
        } else {
            assert(name_lt(s[a - 1].0, s[b - 1].0));
        }
    }
    assert forall|j: int| 0 <= j < s.len() implies (#[trigger] s[j]).0 != k by {
        if j < p {
            lemma_name_order(k, k);
        } else {
            if j > p {
                assert(name_lt(s[p].0, s[j].0));
                lemma_name_trans(k, s[p].0, s[j].0);
            }
            lemma_name_order(k, k);
        }
    }
    let m = entries_map(t);
    let m0 = entries_map(s).insert(k, v);
    assert forall|x: Seq<char>| m.dom().contains(x) <==> m0.dom().contains(x) by {
        if m.dom().contains(x) {
            let j = choose|j: int| 0 <= j < t.len() && (#[trigger] t[j]).0 == x;
            if j < p {
                assert(s[j].0 == x);
            } else if j > p {
                assert(s[j - 1].0 == x);
            }
        }
        if m0.dom().contains(x) && x != k {
            let j = choose|j: int| 0 <= j < s.len() && (#[trigger] s[j]).0 == x;
            if j < p {
                assert(t[j].0 == x);
            } else {
                assert(t[j + 1].0 == x);
            }
        }
        if x == k {
            assert(t[p].0 == x);
        }
    }
    assert forall|x: Seq<char>| m.dom().contains(x) implies m[x] == m0[x] by {
        let j = choose|j: int| 0 <= j < t.len() && (#[trigger] t[j]).0 == x;
        lemma_map_at(t, j);
        if j < p {
            lemma_map_at(s, j);
        } else if j > p {
            lemma_map_at(s, j - 1);
        }
    }
    assert(m =~= m0);
}

/// Removing entry `i` removes its name from the map.
proof fn lemma_map_remove(s: Seq<(Seq<char>, Seq<u8>)>, i: int)
    requires
        sorted_names(s),
        0 <= i < s.len(),
    ensures
        sorted_names(s.remove(i)),
        entries_map(s.remove(i)) == entries_map(s).remove(s[i].0),
{
    let t = s.remove(i);
    assert forall|a: int, b: int| 0 <= a < b < t.len() implies name_lt((#[trigger] t[a]).0, (#[trigger] t[b]).0) by {
        let a0 = if a < i { a } else { a + 1 };
        let b0 = if b < i { b } else { b + 1 };
        assert(name_lt(s[a0].0, s[b0].0));
    }
    let m = entries_map(t);
    let m0 = entries_map(s).remove(s[i].0);
    assert forall|x: Seq<char>| m.dom().contains(x) <==> m0.dom().contains(x) by {
        if m.dom().contains(x) {
            let j = choose|j: int| 0 <= j < t.len() && (#[trigger] t[j]).0 == x;
            let j0 = if j < i { j } else { j + 1 };
            assert(s[j0].0 == x);
            if j0 < i {
                assert(name_lt(s[j0].0, s[i].0));
            } else {
                assert(name_lt(s[i].0, s[j0].0));
            }
            lemma_name_order(x, x);
        }
        if m0.dom().contains(x) {
            let j = choose|j: int| 0 <= j < s.len() && (#[trigger] s[j]).0 == x;
            if j < i {
                assert(t[j].0 == x);
            } else {
                assert(t[j - 1].0 == x);
            }
        }
    }
    assert forall|x: Seq<char>| m.dom().contains(x) implies m[x] == m0[x] by {
        let j = choose|j: int| 0 <= j < t.len() && (#[trigger] t[j]).0 == x;
        lemma_map_at(t, j);
        let j0 = if j < i { j } else { j + 1 };
        lemma_map_at(s, j0);
    }
    assert(m =~= m0);
}

proof fn lemma_name_trans_from(a: Seq<char>, b: Seq<char>, c: Seq<char>, i: int)
    requires
        0 <= i,
        i <= a.len(),
        i <= b.len(),
        i <= c.len(),
        name_lt_from(a, b, i),
        name_lt_from(b, c, i),
    ensures
        name_lt_from(a, c, i),
    decreases a.len() - i,
{
    if i < a.len() && i < b.len() && i < c.len() && a[i] == b[i] && b[i] == c[i] {
        lemma_name_trans_from(a, b, c, i + 1);
    }
}

/// Name order is transitive.
pub proof fn lemma_name_trans(a: Seq<char>, b: Seq<char>, c: Seq<char>)
    requires
        name_lt(a, b),
        name_lt(b, c),
    ensures
        name_lt(a, c),
{
    lemma_name_trans_from(a, b, c, 0);
}


/// The name a valid path stands for.
pub open spec fn key_of(path: Seq<char>) -> Seq<char> {
    trim_spec(path)
}

/// A call that changes the files, as a value.
pub enum FsCall {
    Write(Seq<char>, Seq<u8>),
    Create(Seq<char>),
    Delete(Seq<char>),
}

/// The path a call names.
pub open spec fn call_path(c: FsCall) -> Seq<char> {
    match c {
        FsCall::Write(p, _) => p,
        FsCall::Create(p) => p,
        FsCall::Delete(p) => p,
    }
}

/// The files after one call (see `write`, `create` and `delete`): a call on
/// an invalid name, creating an existing file and deleting a missing one
/// change nothing.
pub open spec fn after_call(m: Map<Seq<char>, Seq<u8>>, c: FsCall) -> Map<Seq<char>, Seq<u8>> {
    match c {
        FsCall::Write(p, d) => if name_ok(p) { m.insert(key_of(p), d) } else { m },
        FsCall::Create(p) => if name_ok(p) && !m.dom().contains(key_of(p)) { m.insert(key_of(p), Seq::empty()) } else { m },
        FsCall::Delete(p) => if name_ok(p) && m.dom().contains(key_of(p)) { m.remove(key_of(p)) } else { m },
    }
}

/// The files after a run of calls, in order.
pub open spec fn after_calls(m: Map<Seq<char>, Seq<u8>>, cs: Seq<FsCall>) -> Map<Seq<char>, Seq<u8>>
    decreases cs.len(),
{
    if cs.len() == 0 { m } else { after_call(after_calls(m, cs.drop_last()), cs.last()) }
}

/// What `read` of `path` gives on the files `m`.
pub open spec fn read_result(m: Map<Seq<char>, Seq<u8>>, path: Seq<char>) -> Result<Seq<u8>, FsError> {
    if !name_ok(path) {
        Err(FsError::InvalidName)
    } else if m.dom().contains(key_of(path)) {
        Ok(m[key_of(path)])
    } else {
        Err(FsError::NotFound)
    }
}

/// The call touches the file named `key`.
pub open spec fn touches(c: FsCall, key: Seq<char>) -> bool {
    name_ok(call_path(c)) && key_of(call_path(c)) == key
}

/// The contents of the file `path` names.
pub fn read(fs: &RamFs, path: &str) -> (r: Result<Vec<u8>, FsError>)
    ensures
        !name_ok(path@) ==> r == Err::<Vec<u8>, FsError>(FsError::InvalidName),
        name_ok(path@) && fs@.dom().contains(key_of(path@)) ==> (r matches Ok(v) && v@ == fs@[key_of(path@)]),
        name_ok(path@) && !fs@.dom().contains(key_of(path@)) ==> r == Err::<Vec<u8>, FsError>(FsError::NotFound),
        match r {
            Ok(v) => read_result(fs@, path@) == Ok::<Seq<u8>, FsError>(v@),
            Err(e) => read_result(fs@, path@) == Err::<Seq<u8>, FsError>(e),
        },
{
    proof {
        use_type_invariant(fs);
    }
    let key = match normalize(path) {
        Ok(k) => k,
        Err(e) => {
            return Err(e);
        },
    };
    match fs.find(&key) {
        Some(i) => {
            proof {
                lemma_map_at(fs.entries(), i as int);
            }
            Ok(vstd::slice::slice_to_vec(fs.files[i].1.as_slice()))
        },
        None => Err(FsError::NotFound),
    }
}

/// Puts `data` in the file `path` names, creating it if needed.
pub fn write(fs: &mut RamFs, path: &str, data: &[u8]) -> (r: Result<(), FsError>)
    ensures
        !name_ok(path@) ==> r == Err::<(), FsError>(FsError::InvalidName) && final(fs)@ == old(fs)@,
        name_ok(path@) ==> r is Ok && final(fs)@ == old(fs)@.insert(key_of(path@), data@),
        final(fs)@ == after_call(old(fs)@, FsCall::Write(path@, data@)),
{
    proof {
        use_type_invariant(&*fs);
    }
    let key = match normalize(path) {
        Ok(k) => k,
        Err(e) => {
            return Err(e);
        },
    };
    let contents = vstd::slice::slice_to_vec(data);
    let ghost s = fs.entries();
    match fs.find(&key) {
        Some(i) => {
            proof {
                lemma_map_set(s, i as int, data@);
            }
            let mut files: Vec<(String, Vec<u8>)> = Vec::new();
            std::mem::swap(&mut files, &mut fs.files);
            files.set(i, (key, contents));
            assert(entries_of(files@) =~= s.update(i as int, (s[i as int].0, data@)));
            fs.files = files;
        },
        None => {
            let p = fs.position(&key);
            proof {
                if p < s.len() {
                    lemma_name_order(s[p as int].0, key@);
                }
                lemma_map_insert(s, p as int, key@, data@);
            }
            let mut files: Vec<(String, Vec<u8>)> = Vec::new();
            std::mem::swap(&mut files, &mut fs.files);
            files.insert(p, (key, contents));
            assert(entries_of(files@) =~= s.insert(p as int, (key@, data@)));
            fs.files = files;
        },
    }
    Ok(())
}

/// Creates the empty file `path` names; fails if it exists.
pub fn create(fs: &mut RamFs, path: &str) -> (r: Result<(), FsError>)
    ensures
        !name_ok(path@) ==> r == Err::<(), FsError>(FsError::InvalidName) && final(fs)@ == old(fs)@,
        name_ok(path@) && old(fs)@.dom().contains(key_of(path@)) ==> r == Err::<(), FsError>(FsError::Exists)
            && final(fs)@ == old(fs)@,
        name_ok(path@) && !old(fs)@.dom().contains(key_of(path@)) ==> r is Ok
            && final(fs)@ == old(fs)@.insert(key_of(path@), Seq::<u8>::empty()),
        final(fs)@ == after_call(old(fs)@, FsCall::Create(path@)),
{
    proof {
        use_type_invariant(&*fs);
    }
    let key = match normalize(path) {
        Ok(k) => k,
        Err(e) => {
            return Err(e);
        },
    };
    let ghost s = fs.entries();
    match fs.find(&key) {
        Some(i) => {
            proof {
                lemma_map_at(s, i as int);
            }
            Err(FsError::Exists)
        },
        None => {
            let p = fs.position(&key);
            proof {
                if p < s.len() {
                    lemma_name_order(s[p as int].0, key@);
                }
                lemma_map_insert(s, p as int, key@, Seq::<u8>::empty());
            }
            let mut files: Vec<(String, Vec<u8>)> = Vec::new();
            std::mem::swap(&mut files, &mut fs.files);
            files.insert(p, (key, Vec::new()));
            assert(entries_of(files@) =~= s.insert(p as int, (key@, Seq::<u8>::empty())));
            fs.files = files;
            Ok(())
        },
    }
}

/// Removes the file `path` names; fails if there is none.
pub fn delete(fs: &mut RamFs, path: &str) -> (r: Result<(), FsError>)
    ensures
        !name_ok(path@) ==> r == Err::<(), FsError>(FsError::InvalidName) && final(fs)@ == old(fs)@,
        name_ok(path@) && !old(fs)@.dom().contains(key_of(path@)) ==> r == Err::<(), FsError>(FsError::NotFound)
            && final(fs)@ == old(fs)@,
        name_ok(path@) && old(fs)@.dom().contains(key_of(path@)) ==> r is Ok
            && final(fs)@ == old(fs)@.remove(key_of(path@)),
        final(fs)@ == after_call(old(fs)@, FsCall::Delete(path@)),
{
    proof {
        use_type_invariant(&*fs);
    }
    let key = match normalize(path) {
        Ok(k) => k,
        Err(e) => {
            return Err(e);
        },
    };
    let ghost s = fs.entries();
    match fs.find(&key) {
        Some(i) => {
            proof {
                lemma_map_remove(s, i as int);
            }
            let mut files: Vec<(String, Vec<u8>)> = Vec::new();
            std::mem::swap(&mut files, &mut fs.files);
            files.remove(i);
            assert(entries_of(files@) =~= s.remove(i as int));
            fs.files = files;
            Ok(())
        },
        None => Err(FsError::NotFound),
    }
}

/// Every file, in name order, with its size.
pub fn list(fs: &RamFs) -> (r: Vec<(String, usize)>)
    ensures
        r@.len() == fs.entries().len(),
        forall|i: int| 0 <= i < r@.len() ==> (#[trigger] r@[i]).0@ == fs.entries()[i].0 && r@[i].1 == fs.entries()[i].1.len(),
        forall|i: int, j: int| 0 <= i < j < r@.len() ==> name_lt((#[trigger] r@[i]).0@, (#[trigger] r@[j]).0@),
        forall|k: Seq<char>| fs@.dom().contains(k) <==> exists|i: int| 0 <= i < r@.len() && (#[trigger] r@[i]).0@ == k,
{
    proof {
        use_type_invariant(fs);
    }
    let mut out: Vec<(String, usize)> = Vec::new();
    let mut i: usize = 0;
    while i < fs.files.len()
        invariant
            i <= fs.files@.len(),
            out@.len() == i,
            forall|j: int| 0 <= j < i ==> (#[trigger] out@[j]).0@ == fs.entries()[j].0 && out@[j].1 == fs.entries()[j].1.len(),
        decreases fs.files@.len() - i,
    {
        out.push((fs.files[i].0.clone(), fs.files[i].1.len()));
        i = i + 1;
    }
    assert forall|k: Seq<char>| fs@.dom().contains(k) <==> exists|i: int| 0 <= i < out@.len() && (#[trigger] out@[i]).0@ == k by {
        if fs@.dom().contains(k) {
            let j = choose|j: int| 0 <= j < fs.entries().len() && (#[trigger] fs.entries()[j]).0 == k;
            assert(out@[j].0@ == k);
        }
        if exists|i: int| 0 <= i < out@.len() && (#[trigger] out@[i]).0@ == k {
            let j = choose|j: int| 0 <= j < out@.len() && (#[trigger] out@[j]).0@ == k;
            assert(fs.entries()[j].0 == k);
        }
    }
    out
}

impl FileSystem for RamFs {
    fn read(&self, path: &str) -> (r: Result<Vec<u8>, FsError>)
        ensures
            !name_ok(path@) ==> r == Err::<Vec<u8>, FsError>(FsError::InvalidName),
            name_ok(path@) && self@.dom().contains(key_of(path@)) ==> (r matches Ok(v) && v@ == self@[key_of(path@)]),
            name_ok(path@) && !self@.dom().contains(key_of(path@)) ==> r == Err::<Vec<u8>, FsError>(FsError::NotFound),
    {
        read(self, path)
    }

    fn write(&mut self, path: &str, data: &[u8]) -> (r: Result<(), FsError>)
        ensures
            !name_ok(path@) ==> r == Err::<(), FsError>(FsError::InvalidName) && final(self)@ == old(self)@,
            name_ok(path@) ==> r is Ok && final(self)@ == old(self)@.insert(key_of(path@), data@),
    {
        write(self, path, data)
    }

    fn create(&mut self, path: &str) -> (r: Result<(), FsError>)
        ensures
            !name_ok(path@) ==> r == Err::<(), FsError>(FsError::InvalidName) && final(self)@ == old(self)@,
            name_ok(path@) && old(self)@.dom().contains(key_of(path@)) ==> r == Err::<(), FsError>(FsError::Exists)
                && final(self)@ == old(self)@,
            name_ok(path@) && !old(self)@.dom().contains(key_of(path@)) ==> r is Ok
                && final(self)@ == old(self)@.insert(key_of(path@), Seq::<u8>::empty()),
    {
        create(self, path)
    }

    fn delete(&mut self, path: &str) -> (r: Result<(), FsError>)
        ensures
            !name_ok(path@) ==> r == Err::<(), FsError>(FsError::InvalidName) && final(self)@ == old(self)@,
            name_ok(path@) && !old(self)@.dom().contains(key_of(path@)) ==> r == Err::<(), FsError>(FsError::NotFound)
                && final(self)@ == old(self)@,
            name_ok(path@) && old(self)@.dom().contains(key_of(path@)) ==> r is Ok
                && final(self)@ == old(self)@.remove(key_of(path@)),
    {
        delete(self, path)
    }

    fn list(&self) -> (r: Vec<(String, usize)>)
        ensures
            r@.len() == self.entries().len(),
            forall|i: int| 0 <= i < r@.len() ==> (#[trigger] r@[i]).0@ == self.entries()[i].0 && r@[i].1 == self.entries()[i].1.len(),
    {
        list(self)
    }
}

/// Calls that touch other names leave the file named `key` as it was.
proof fn lemma_untouched(m: Map<Seq<char>, Seq<u8>>, cs: Seq<FsCall>, key: Seq<char>)
    requires
        forall|i: int| 0 <= i < cs.len() ==> !touches(#[trigger] cs[i], key),
    ensures
        after_calls(m, cs).dom().contains(key) == m.dom().contains(key),
        m.dom().contains(key) ==> after_calls(m, cs)[key] == m[key],
    decreases cs.len(),
{
    if cs.len() > 0 {
        assert forall|i: int| 0 <= i < cs.drop_last().len() implies !touches(#[trigger] cs.drop_last()[i], key) by {
            assert(cs.drop_last()[i] == cs[i]);
        }
        lemma_untouched(m, cs.drop_last(), key);
        assert(!touches(cs[cs.len() - 1], key));
    }
}

/// Reading a file gives back what was last written to it: after `write` of
/// `data` to a valid path, followed by any calls (`write`, `create`,
/// `delete`) on other names, `read` of the path (or of any path naming the
/// same file) gives `data`.
pub proof fn write_then_read(m: Map<Seq<char>, Seq<u8>>, path: Seq<char>, data: Seq<u8>, cs: Seq<FsCall>, again: Seq<char>)
    requires
        name_ok(path),
        key_of(again) == key_of(path),
        forall|i: int| 0 <= i < cs.len() ==> !touches(#[trigger] cs[i], key_of(path)),
    ensures
        read_result(after_calls(m, seq![FsCall::Write(path, data)] + cs), again) == Ok::<Seq<u8>, FsError>(data),
{
    let all = seq![FsCall::Write(path, data)] + cs;
    lemma_after_calls_append(m, seq![FsCall::Write(path, data)], cs);
    let m1 = after_calls(m, seq![FsCall::Write(path, data)]);
    assert(seq![FsCall::Write(path, data)].drop_last() =~= Seq::<FsCall>::empty());
    reveal_with_fuel(after_calls, 2);
    assert(m1 == m.insert(key_of(path), data));
    lemma_untouched(m1, cs, key_of(path));
    assert(name_ok(again) == name_ok(path));
}

/// A file never written nor created is not found: on files without `key`,
/// after calls none of which writes or creates that name, `read` of a path
/// naming it gives `NotFound`.
pub proof fn unwritten_not_found(m: Map<Seq<char>, Seq<u8>>, cs: Seq<FsCall>, path: Seq<char>)
    requires
        name_ok(path),
        !m.dom().contains(key_of(path)),
        forall|i: int| 0 <= i < cs.len() ==> !((#[trigger] cs[i]) is Delete) ==> !touches(cs[i], key_of(path)),
    ensures
        read_result(after_calls(m, cs), path) == Err::<Seq<u8>, FsError>(FsError::NotFound),
    decreases cs.len(),
{
    if cs.len() > 0 {
        assert forall|i: int| 0 <= i < cs.drop_last().len() && !((#[trigger] cs.drop_last()[i]) is Delete)
            implies !touches(cs.drop_last()[i], key_of(path)) by {
            assert(cs.drop_last()[i] == cs[i]);
        }
        unwritten_not_found(m, cs.drop_last(), path);
        let c = cs[cs.len() - 1];
        assert(!(c is Delete) ==> !touches(c, key_of(path)));
    }
}

proof fn lemma_after_calls_append(m: Map<Seq<char>, Seq<u8>>, a: Seq<FsCall>, b: Seq<FsCall>)
    ensures
        after_calls(m, a + b) == after_calls(after_calls(m, a), b),
    decreases b.len(),
{
    if b.len() == 0 {
        assert(a + b =~= a);
    } else {
        assert((a + b).drop_last() =~= a + b.drop_last());
        lemma_after_calls_append(m, a, b.drop_last());
    }
}

/// Writing one file leaves every other file as it was.
pub proof fn write_keeps_others(m: Map<Seq<char>, Seq<u8>>, path: Seq<char>, data: Seq<u8>, other: Seq<char>)
    requires
        name_ok(path),
        other != key_of(path),
    ensures
        m.insert(key_of(path), data).dom().contains(other) == m.dom().contains(other),
        m.dom().contains(other) ==> m.insert(key_of(path), data)[other] == m[other],
{
}

/// A deleted file is not found any more.
pub proof fn delete_then_absent(m: Map<Seq<char>, Seq<u8>>, path: Seq<char>)
    requires
        name_ok(path),
    ensures
        !m.remove(key_of(path)).dom().contains(key_of(path)),
{
}

/// A created file reads as empty.
pub proof fn create_then_empty(m: Map<Seq<char>, Seq<u8>>, path: Seq<char>)
    requires
        name_ok(path),
        !m.dom().contains(key_of(path)),
    ensures
        m.insert(key_of(path), Seq::<u8>::empty())[key_of(path)] == Seq::<u8>::empty(),
{
}

} // verus!
