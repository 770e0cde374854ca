//! Candidate library paths for the loader.
//!
//! A plugin path that already carries the platform's native library
//! extension is taken as given. Otherwise the loader also tries the path
//! with that extension appended, and with the platform's library-name
//! prefix additionally applied to the filename. The path separator is
//! `/`.

use vstd::prelude::*;

verus! {

/// Whether `path` ends in `.` followed by `ext`.
pub open spec fn has_library_extension(path: Seq<char>, ext: Seq<char>) -> bool {
    &&& path.len() > ext.len()
    &&& path.skip(path.len() - ext.len() - 1) == seq!['.'] + ext
}

/// The position where the filename of `path` starts: right after the last
/// `/`, or the start of the path.
pub open spec fn filename_split(path: Seq<char>) -> int
    decreases path.len(),
{
    if path.len() == 0 {
        0
    } else if path.last() == '/' {
        path.len() as int
    } else {
        filename_split(path.drop_last())
    }
}

/// The candidate paths the loader tries, in order: the path as given; and,
/// where it lacks the library extension, the path with the extension
/// appended, and that same path with `prefix` put before its filename.
pub open spec fn spec_candidate_paths(
    path: Seq<char>,
    ext: Seq<char>,
    prefix: Seq<char>,
) -> Seq<Seq<char>> {
    if has_library_extension(path, ext) {
        seq![path]
    } else {
        let extended = path + seq!['.'] + ext;
        let split = filename_split(path);
        seq![path, extended, path.take(split) + prefix + extended.skip(split)]
    }
}

/// The filename starts within the path, and no `/` follows it.
pub proof fn lemma_filename_split_bounds(path: Seq<char>)
    ensures
        0 <= filename_split(path) <= path.len(),
    decreases path.len(),
{
    if path.len() > 0 && path.last() != '/' {
        lemma_filename_split_bounds(path.drop_last());
    }
}

/// Whether `path` ends in `.` followed by `ext`.
fn ends_with_extension(path: &String, ext: &String) -> (r: bool)
    ensures
        r == has_library_extension(path@, ext@),
{
    let n = path.as_str().unicode_len();
    let m = ext.as_str().unicode_len();
    if n <= m {
        return false;
    }
    let ghost tail = path@.skip(path@.len() - ext@.len() - 1);
    let dot = path.as_str().get_char(n - m - 1);
    proof {
        assert(tail.len() == m + 1);
        assert(tail[0] == path@[n - m - 1]);
    }
    if dot != '.' {
        proof {
            assert((seq!['.'] + ext@)[0] == '.');
        }
        return false;
    }
    let mut i: usize = 0;
    while i < m
        invariant
            i <= m,
            n == path@.len(),
            m == ext@.len(),
            n > m,
            path@[n - m - 1] == '.',
            forall|j: int| 0 <= j < i ==> path@[n - m + j] == ext@[j],
        decreases m - i,
    {
        let c = path.as_str().get_char(n - m + i);
        if c != ext.as_str().get_char(i) {
            proof {
                let tl = path@.skip(n - m - 1);
                assert(tl[i + 1] == path@[n - m + i]);
                assert((seq!['.'] + ext@)[i + 1] == ext@[i as int]);
            }
            return false;
        }
        i = i + 1;
    }
    proof {
        assert(tail =~= seq!['.'] + ext@);
    }
    true
}

/// The position where the filename of `path` starts.
fn find_filename_split(path: &String) -> (r: usize)
    ensures
        r == filename_split(path@),
{
    let n = path.as_str().unicode_len();
    let mut i: usize = n;
    proof {
        assert(path@.take(n as int) =~= path@);
    }
    while i > 0
        invariant
            i <= n,
            n == path@.len(),
            filename_split(path@) == filename_split(path@.take(i as int)),
        decreases i,
    {
        let c = path.as_str().get_char(i - 1);
        let ghost pre = path@.take(i as int);
        proof {
            assert(pre.last() == path@[i - 1]);
        }
        if c == '/' {
            return i;
        }
        proof {
            assert(pre.drop_last() =~= path@.take(i - 1));
        }
        i = i - 1;
    }
    proof {
        assert(path@.take(0) =~= Seq::<char>::empty());
    }
    0
}

/// The candidate paths the loader tries, in order.
pub fn candidate_paths(path: &String, ext: &String, prefix: &String) -> (r: Vec<String>)
    ensures
        r@.map_values(|s: String| s@) == spec_candidate_paths(path@, ext@, prefix@),
{
    let mut out: Vec<String> = Vec::new();
    out.push(path.clone());
    if !ends_with_extension(path, ext) {
        proof {
            reveal_strlit(".");
        }
        let mut extended = path.clone();
        extended.append(".");
        extended.append(ext.as_str());
        proof {
            assert(extended@ =~= path@ + seq!['.'] + ext@);
        }
        let split = find_filename_split(path);
        proof {
            lemma_filename_split_bounds(path@);
        }
        let dir = path.as_str().substring_char(0, split);
        let mut third = String::from_str(dir);
        third.append(prefix.as_str());
        let extended_len = extended.as_str().unicode_len();
        proof {
            assert(split <= extended@.len());
        }
        let fname = extended.as_str().substring_char(split, extended_len);
        third.append(fname);
        proof {
            assert(dir@ =~= path@.take(split as int));
            assert(fname@ =~= extended@.skip(split as int));
            assert(third@ =~= path@.take(split as int) + prefix@ + extended@.skip(split as int));
        }
        out.push(extended);
        out.push(third);
        proof {
            assert(out@.map_values(|s: String| s@) =~= spec_candidate_paths(
                path@,
                ext@,
                prefix@,
            ));
        }
    } else {
        proof {
            assert(out@.map_values(|s: String| s@) =~= spec_candidate_paths(
                path@,
                ext@,
                prefix@,
            ));
        }
    }
    out
}

} // verus!
