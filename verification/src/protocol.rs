//! The negotiation-protocol codec.
//!
//! A plugin advertises its capabilities as a flat byte sequence of records
//! `name-bytes 0x00 version-byte 0x00`, terminated by a record whose name is
//! empty. `raw_records` is the specification of that wire shape;
//! `group_records` is the specification of how repeated names accumulate
//! into one ascending version set per capability. `decode_capabilities`
//! is proved to produce exactly that grouping, or `InvalidUTF8` when some
//! record's name is not valid text.

use vstd::prelude::*;
use vstd::utf8::valid_utf8;

use crate::error::Error;
use crate::utf8::check_utf8;

verus! {

/// One advertised capability: its name, and the versions offered for it,
/// ascending and without repeats.
#[derive(Debug)]
pub struct Capability {
    pub name: Vec<u8>,
    pub versions: Vec<u8>,
}

/// The mathematical content of a capability list: (name, versions) pairs.
pub open spec fn caps_view(caps: Seq<Capability>) -> Seq<(Seq<u8>, Seq<u8>)> {
    caps.map_values(|c: Capability| (c.name@, c.versions@))
}

/// The position of the first `0x00` in `b`, if any.
pub open spec fn first_zero(b: Seq<u8>) -> Option<int>
    decreases b.len(),
{
    if b.len() == 0 {
        None
    } else if b[0] == 0 {
        Some(0int)
    } else {
        match first_zero(b.drop_first()) {
            Some(i) => Some(i + 1),
            None => None,
        }
    }
}

/// The flat list of `(name, version)` records at the head of `b`: records
/// of the shape `name 0x00 version 0x00` with a non-empty name, ending at
/// the first record whose name is empty or where the input runs out before
/// a record is complete.
pub open spec fn raw_records(b: Seq<u8>) -> Seq<(Seq<u8>, u8)>
    decreases b.len(),
{
    match first_zero(b) {
        None => Seq::empty(),
        Some(z) => {
            if z < 1 {
                Seq::empty()
            } else if z + 1 >= b.len() {
                Seq::empty()
            } else {
                let rec = (b.subrange(0, z), b[z + 1]);
                let rest = if z + 3 <= b.len() {
                    b.skip(z + 3)
                } else {
                    Seq::<u8>::empty()
                };
                seq![rec] + raw_records(rest)
            }
        },
    }
}

/// Insertion into an ascending sequence without repeats.
pub open spec fn insert_sorted(vs: Seq<u8>, v: u8) -> Seq<u8>
    decreases vs.len(),
{
    if vs.len() == 0 {
        seq![v]
    } else if v < vs[0] {
        seq![v] + vs
    } else if v == vs[0] {
        vs
    } else {
        seq![vs[0]] + insert_sorted(vs.drop_first(), v)
    }
}

/// One record folded into a capability list: the version joins the entry of
/// its name, or a new entry is appended.
pub open spec fn add_record(
    cv: Seq<(Seq<u8>, Seq<u8>)>,
    name: Seq<u8>,
    v: u8,
) -> Seq<(Seq<u8>, Seq<u8>)>
    decreases cv.len(),
{
    if cv.len() == 0 {
        seq![(name, seq![v])]
    } else if cv[0].0 == name {
        seq![(cv[0].0, insert_sorted(cv[0].1, v))] + cv.drop_first()
    } else {
        seq![cv[0]] + add_record(cv.drop_first(), name, v)
    }
}

/// All records folded into a capability list, in order.
pub open spec fn group_records(rs: Seq<(Seq<u8>, u8)>) -> Seq<(Seq<u8>, Seq<u8>)>
    decreases rs.len(),
{
    if rs.len() == 0 {
        Seq::empty()
    } else {
        add_record(group_records(rs.drop_last()), rs.last().0, rs.last().1)
    }
}

/// Ascending, hence without repeats.
pub open spec fn strictly_sorted(vs: Seq<u8>) -> bool {
    forall|a: int, c: int| 0 <= a < c < vs.len() ==> vs[a] < vs[c]
}

/// Whether every record name of an advertisement is valid text.
pub open spec fn advert_names_valid(b: Seq<u8>) -> bool {
    forall|k: int|
        0 <= k < raw_records(b).len() ==> valid_utf8(#[trigger] raw_records(b)[k].0)
}

/// The capability list an advertisement denotes.
pub open spec fn advert_caps(b: Seq<u8>) -> Seq<(Seq<u8>, Seq<u8>)> {
    group_records(raw_records(b))
}

/// A well-formed capability list: names pairwise distinct, each version set
/// ascending and non-empty.
pub open spec fn caps_wf(cv: Seq<(Seq<u8>, Seq<u8>)>) -> bool {
    &&& forall|i: int, j: int| 0 <= i < j < cv.len() ==> cv[i].0 != cv[j].0
    &&& forall|i: int| 0 <= i < cv.len() ==> strictly_sorted(#[trigger] cv[i].1)
    &&& forall|i: int| 0 <= i < cv.len() ==> (#[trigger] cv[i].1).len() > 0
}

proof fn lemma_first_zero_at(b: Seq<u8>, i: int)
    requires
        0 <= i < b.len(),
        b[i] == 0,
        forall|j: int| 0 <= j < i ==> b[j] != 0,
    ensures
        first_zero(b) == Some(i),
    decreases i,
{
    if i > 0 {
        lemma_first_zero_at(b.drop_first(), i - 1);
    }
}

proof fn lemma_first_zero_none(b: Seq<u8>)
    requires
        forall|j: int| 0 <= j < b.len() ==> b[j] != 0,
    ensures
        first_zero(b) is None,
    decreases b.len(),
{
    if b.len() > 0 {
        lemma_first_zero_none(b.drop_first());
    }
}

/// Where the insertion point of `v` is position `k`, insertion keeps the
/// prefix, places `v`, and keeps the rest — or leaves the sequence alone
/// when `v` is already there.
proof fn lemma_insert_sorted_at(vs: Seq<u8>, v: u8, k: int)
    requires
        0 <= k <= vs.len(),
        forall|j: int| 0 <= j < k ==> vs[j] < v,
        k < vs.len() ==> v <= vs[k],
    ensures
        k < vs.len() && vs[k] == v ==> insert_sorted(vs, v) == vs,
        !(k < vs.len() && vs[k] == v) ==> insert_sorted(vs, v) == vs.subrange(0, k) + seq![v]
            + vs.skip(k),
    decreases k,
{
    if k == 0 {
        if vs.len() == 0 || v < vs[0] {
            assert(vs.subrange(0, 0) + seq![v] + vs.skip(0) =~= seq![v] + vs);
            if vs.len() == 0 {
                assert(seq![v] + vs =~= seq![v]);
            }
        }
    } else {
        lemma_insert_sorted_at(vs.drop_first(), v, k - 1);
        let df = vs.drop_first();
        if k < vs.len() && vs[k] == v {
            assert(df[k - 1] == vs[k]);
            assert(seq![vs[0]] + df =~= vs);
        } else {
            assert(insert_sorted(df, v) == df.subrange(0, k - 1) + seq![v] + df.skip(k - 1));
            assert(seq![vs[0]] + (df.subrange(0, k - 1) + seq![v] + df.skip(k - 1)) =~= vs.subrange(
                0,
                k,
            ) + seq![v] + vs.skip(k));
        }
    }
}

/// Where entry `i` is the first whose name is `name`, folding a record in
/// rewrites exactly that entry.
proof fn lemma_add_record_found(cv: Seq<(Seq<u8>, Seq<u8>)>, name: Seq<u8>, v: u8, i: int)
    requires
        0 <= i < cv.len(),
        forall|j: int| 0 <= j < i ==> cv[j].0 != name,
        cv[i].0 == name,
    ensures
        add_record(cv, name, v) == cv.update(i, (cv[i].0, insert_sorted(cv[i].1, v))),
    decreases i,
{
    if i == 0 {
        assert(seq![(cv[0].0, insert_sorted(cv[0].1, v))] + cv.drop_first() =~= cv.update(
            0,
            (cv[0].0, insert_sorted(cv[0].1, v)),
        ));
    } else {
        let df = cv.drop_first();
        lemma_add_record_found(df, name, v, i - 1);
        assert(df[i - 1] == cv[i]);
        assert(seq![cv[0]] + df.update(i - 1, (cv[i].0, insert_sorted(cv[i].1, v))) =~= cv.update(
            i,
            (cv[i].0, insert_sorted(cv[i].1, v)),
        ));
    }
}

/// Where no entry carries `name`, folding a record in appends a fresh
/// entry.
proof fn lemma_add_record_absent(cv: Seq<(Seq<u8>, Seq<u8>)>, name: Seq<u8>, v: u8)
    requires
        forall|j: int| 0 <= j < cv.len() ==> cv[j].0 != name,
    ensures
        add_record(cv, name, v) == cv.push((name, seq![v])),
    decreases cv.len(),
{
    if cv.len() == 0 {
        assert(seq![(name, seq![v])] =~= cv.push((name, seq![v])));
    } else {
        lemma_add_record_absent(cv.drop_first(), name, v);
        assert(seq![cv[0]] + cv.drop_first().push((name, seq![v])) =~= cv.push((name, seq![v])));
    }
}

/// The position of the first `0x00` in `data` at or after `from`, if any.
fn find_zero(data: &Vec<u8>, from: usize) -> (r: Option<usize>)
    requires
        from <= data@.len(),
    ensures
        match r {
            Some(p) => {
                &&& from <= p < data@.len()
                &&& data@[p as int] == 0
                &&& forall|j: int| from <= j < p ==> data@[j] != 0
            },
            None => forall|j: int| from <= j < data@.len() ==> data@[j] != 0,
        },
{
    let n = data.len();
    let mut i: usize = from;
    while i < n
        invariant
            from <= i <= n,
            n == data@.len(),
            forall|j: int| from <= j < i ==> data@[j] != 0,
        decreases n - i,
    {
        if data[i] == 0 {
            return Some(i);
        }
        i = i + 1;
    }
    None
}

/// The bytes of `data` in `[from, to)`, as a fresh vector.
fn copy_range(data: &Vec<u8>, from: usize, to: usize) -> (r: Vec<u8>)
    requires
        from <= to <= data@.len(),
    ensures
        r@ == data@.subrange(from as int, to as int),
{
    let mut out: Vec<u8> = Vec::new();
    let mut i: usize = from;
    while i < to
        invariant
            from <= i <= to <= data@.len(),
            out@ =~= data@.subrange(from as int, i as int),
        decreases to - i,
    {
        out.push(data[i]);
        proof {
            assert(out@ =~= data@.subrange(from as int, i + 1));
        }
        i = i + 1;
    }
    proof {
        assert(out@ =~= data@.subrange(from as int, to as int));
    }
    out
}

/// Whether two byte vectors hold the same bytes.
pub fn bytes_eq(a: &Vec<u8>, b: &Vec<u8>) -> (r: bool)
    ensures
        r == (a@ == b@),
{
    if a.len() != b.len() {
        return false;
    }
    let n = a.len();
    let mut i: usize = 0;
    while i < n
        invariant
            i <= n,
            n == a@.len() == b@.len(),
            forall|j: int| 0 <= j < i ==> a@[j] == b@[j],
        decreases n - i,
    {
        if a[i] != b[i] {
            return false;
        }
        i = i + 1;
    }
    proof {
        assert(a@ =~= b@);
    }
    true
}

/// A copy of `vs` with `v` inserted in ascending position, or `vs` itself
/// when `v` is already present.
fn inserted(vs: &Vec<u8>, v: u8) -> (r: Vec<u8>)
    requires
        strictly_sorted(vs@),
    ensures
        r@ == insert_sorted(vs@, v),
        strictly_sorted(r@),
        r@.len() > 0,
{
    let n = vs.len();
    let mut out: Vec<u8> = Vec::new();
    let mut k: usize = 0;
    while k < n && vs[k] < v
        invariant
            k <= n,
            n == vs@.len(),
            forall|j: int| 0 <= j < k ==> vs@[j] < v,
            out@ =~= vs@.subrange(0, k as int),
        decreases n - k,
    {
        out.push(vs[k]);
        proof {
            assert(out@ =~= vs@.subrange(0, k + 1));
        }
        k = k + 1;
    }
    let ghost kk = k as int;
    proof {
        lemma_insert_sorted_at(vs@, v, kk);
    }
    if k < n && vs[k] == v {
        // already present: the rest is copied unchanged
        let mut j = k;
        while j < n
            invariant
                kk <= j <= n,
                n == vs@.len(),
                out@ =~= vs@.subrange(0, j as int),
            decreases n - j,
        {
            out.push(vs[j]);
            proof {
                assert(out@ =~= vs@.subrange(0, j + 1));
            }
            j = j + 1;
        }
        proof {
            assert(out@ =~= vs@);
        }
        out
    } else {
        out.push(v);
        proof {
            assert(out@ =~= vs@.subrange(0, kk) + seq![v] + vs@.subrange(kk, kk));
        }
        let mut j = k;
        while j < n
            invariant
                0 <= kk <= j <= n,
                n == vs@.len(),
                out@ =~= vs@.subrange(0, kk) + seq![v] + vs@.subrange(kk, j as int),
            decreases n - j,
        {
            out.push(vs[j]);
            proof {
                assert(vs@.subrange(kk, j + 1) =~= vs@.subrange(kk, j as int).push(
                    vs@[j as int],
                ));
                assert(out@ =~= vs@.subrange(0, kk) + seq![v] + vs@.subrange(kk, j + 1));
            }
            j = j + 1;
        }
        proof {
            assert(vs@.subrange(kk, n as int) =~= vs@.skip(kk));
            assert(out@ =~= vs@.subrange(0, kk) + seq![v] + vs@.skip(kk));
            assert forall|a: int, c: int| 0 <= a < c < out@.len() implies out@[a] < out@[c] by {
                if a < kk {
                    assert(out@[a] == vs@[a]);
                }
                if c < kk {
                    assert(out@[c] == vs@[c]);
                }
                if a > kk {
                    assert(out@[a] == vs@[a - 1]);
                }
                if c > kk {
                    assert(out@[c] == vs@[c - 1]);
                }
            }
        }
        out
    }
}

/// Folds one record into a capability list: the version joins the entry of
/// its name, or a fresh entry is appended.
/// The position of the capability entry named `name`, if any.
fn find_name(caps: &Vec<Capability>, name: &Vec<u8>) -> (r: Option<usize>)
    ensures
        match r {
            Some(i) => {
                &&& i < caps@.len()
                &&& caps_view(caps@)[i as int].0 == name@
                &&& forall|j: int| 0 <= j < i ==> caps_view(caps@)[j].0 != name@
            },
            None => forall|j: int| 0 <= j < caps@.len() ==> caps_view(caps@)[j].0 != name@,
        },
{
    let n = caps.len();
    let mut i: usize = 0;
    while i < n
        invariant
            i <= n,
            n == caps@.len(),
            forall|j: int| 0 <= j < i ==> caps_view(caps@)[j].0 != name@,
        decreases n - i,
    {
        proof {
            assert(caps_view(caps@)[i as int] == (caps@[i as int].name@, caps@[i as int].versions@));
        }
        if bytes_eq(&caps[i].name, name) {
            return Some(i);
        }
        i = i + 1;
    }
    None
}

/// Folds one record into a capability list: the version joins the entry of
/// its name, or a fresh entry is appended.
fn add_version(caps: &mut Vec<Capability>, name: Vec<u8>, v: u8)
    requires
        caps_wf(caps_view(old(caps)@)),
    ensures
        caps_view(final(caps)@) == add_record(caps_view(old(caps)@), name@, v),
        caps_wf(caps_view(final(caps)@)),
{
    let ghost cv = caps_view(caps@);
    let ghost gname = name@;
    match find_name(caps, &name) {
        Some(i) => {
            proof {
                lemma_add_record_found(cv, gname, v, i as int);
            }
            let nv = inserted(&caps[i].versions, v);
            proof {
                assert(cv[i as int].1 == caps@[i as int].versions@);
            }
            caps[i].versions = nv;
            proof {
                let post = caps_view(caps@);
                assert(post =~= cv.update(
                    i as int,
                    (cv[i as int].0, insert_sorted(cv[i as int].1, v)),
                ));
                assert forall|a: int, b: int| 0 <= a < b < post.len() implies post[a].0
                    != post[b].0 by {
                    assert(post[a].0 == cv[a].0);
                    assert(post[b].0 == cv[b].0);
                }
            }
        },
        None => {
            proof {
                lemma_add_record_absent(cv, gname, v);
            }
            let mut vs: Vec<u8> = Vec::new();
            vs.push(v);
            caps.push(Capability { name, versions: vs });
            proof {
                let post = caps_view(caps@);
                assert(vs@ =~= seq![v]);
                assert(post =~= cv.push((gname, seq![v])));
                assert forall|a: int, b: int| 0 <= a < b < post.len() implies post[a].0
                    != post[b].0 by {
                    assert(post[a].0 == cv[a].0);
                    if b < cv.len() {
                        assert(post[b].0 == cv[b].0);
                    }
                }
            }
        },
    }
}

/// Decodes a capability advertisement: the records of `raw_records`,
/// grouped by name with ascending version sets, exactly as `group_records`
/// states — or `InvalidUTF8` when some record's name is not valid text.
pub fn decode_capabilities(data: &Vec<u8>) -> (r: Result<Vec<Capability>, Error>)
    ensures
        match r {
            Ok(caps) => {
                &&& advert_names_valid(data@)
                &&& caps_view(caps@) == advert_caps(data@)
                &&& caps_wf(caps_view(caps@))
            },
            Err(e) => {
                &&& e is InvalidUTF8
                &&& !advert_names_valid(data@)
            },
        },
{
    let n = data.len();
    let mut caps: Vec<Capability> = Vec::new();
    let mut idx: usize = 0;
    let ghost mut done: Seq<(Seq<u8>, u8)> = Seq::empty();
    proof {
        assert(data@.skip(0) =~= data@);
        assert(caps_view(caps@) =~= Seq::<(Seq<u8>, Seq<u8>)>::empty());
        assert(raw_records(data@) =~= done + raw_records(data@));
    }
    loop
        invariant
            idx <= n,
            n == data@.len(),
            raw_records(data@) =~= done + raw_records(data@.skip(idx as int)),
            caps_view(caps@) =~= group_records(done),
            forall|k: int| 0 <= k < done.len() ==> valid_utf8(#[trigger] done[k].0),
            caps_wf(caps_view(caps@)),
        decreases n - idx,
    {
        let ghost s = data@.skip(idx as int);
        proof {
            assert(s.len() == n - idx);
            assert forall|m: int| 0 <= m < s.len() implies s[m] == data@[idx + m] by {}
        }
        match find_zero(data, idx) {
            None => {
                proof {
                    assert forall|m: int| 0 <= m < s.len() implies s[m] != 0 by {
                        assert(s[m] == data@[idx + m]);
                    }
                    lemma_first_zero_none(s);
                    assert(raw_records(s) =~= Seq::<(Seq<u8>, u8)>::empty());
                    assert(raw_records(data@) =~= done);
                }
                return Ok(caps);
            },
            Some(p) => {
                if p == idx {
                    // a record with an empty name terminates the list
                    proof {
                        assert(s[0] == 0);
                        lemma_first_zero_at(s, 0);
                        assert(raw_records(s) =~= Seq::<(Seq<u8>, u8)>::empty());
                        assert(raw_records(data@) =~= done);
                    }
                    return Ok(caps);
                }
                let ghost z = p - idx;
                proof {
                    assert(s[z] == data@[p as int]);
                    assert forall|j: int| 0 <= j < z implies s[j] != 0 by {
                        assert(s[j] == data@[idx + j]);
                    }
                    lemma_first_zero_at(s, z);
                }
                if p + 1 >= n {
                    // the name is terminated but its version byte is not
                    // there: the input ends
                    proof {
                        assert(z + 1 >= s.len());
                        assert(raw_records(s) =~= Seq::<(Seq<u8>, u8)>::empty());
                        assert(raw_records(data@) =~= done);
                    }
                    return Ok(caps);
                }
                let name = copy_range(data, idx, p);
                let v = data[p + 1];
                let ghost rec = (s.subrange(0, z), s[z + 1]);
                let ghost rest = if z + 3 <= s.len() {
                    s.skip(z + 3)
                } else {
                    Seq::<u8>::empty()
                };
                proof {
                    assert(name@ =~= s.subrange(0, z));
                    assert(v == s[z + 1]);
                    assert(raw_records(s) =~= seq![rec] + raw_records(rest));
                    assert((done + raw_records(s))[done.len() as int] == raw_records(s)[0]);
                    assert(raw_records(data@)[done.len() as int] == rec);
                }
                if !check_utf8(&name) {
                    proof {
                        assert(!valid_utf8(raw_records(data@)[done.len() as int].0));
                    }
                    return Err(Error::InvalidUTF8);
                }
                let ghost pre_done = done;
                let ghost pre_cv = caps_view(caps@);
                add_version(&mut caps, name, v);
                proof {
                    done = pre_done.push(rec);
                    assert(done.drop_last() =~= pre_done);
                    assert(done.last() == rec);
                    assert(group_records(done) == add_record(group_records(pre_done), rec.0, rec.1));
                    assert(caps_view(caps@) == add_record(pre_cv, rec.0, rec.1));
                }
                let next = if n - p >= 3 {
                    p + 3
                } else {
                    n
                };
                proof {
                    if z + 3 <= s.len() {
                        assert(rest =~= data@.skip(next as int));
                    } else {
                        assert(next == n);
                        assert(data@.skip(n as int) =~= Seq::<u8>::empty());
                    }
                    assert(raw_records(data@) =~= done + raw_records(data@.skip(next as int)));
                }
                idx = next;
            },
        }
    }
}

} // verus!
