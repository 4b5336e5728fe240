//! What a `rustc` invocation of a build tells about the source files that
//! the build reads: the directory where `rustc` writes its dependency
//! information, and the `.rs` files named on its command line.

use vstd::prelude::*;
use crate::scan::dep_info::strings_view;

verus! {

/// Why the arguments of a `rustc` invocation could not be read.
#[derive(Clone, Copy, Debug, PartialEq, Eq, Structural)]
pub enum CustomExecutorError {
    /// No `--out-dir` argument.
    OutDirKeyMissing,
    /// `--out-dir` is the last argument.
    OutDirValueMissing,
}

/// The text in lower case, as `str::to_lowercase` gives it.
pub uninterp spec fn lowercase(s: Seq<char>) -> Seq<char>;

/// Calls `str::to_lowercase`. Trusted to return `lowercase(s@)`: the
/// lower case of a text depends on the text alone.
#[verifier::external_body]
fn to_lowercase(s: &str) -> (r: String)
    ensures
        r@ == lowercase(s@),
{
    s.to_lowercase()
}

/// The text ends with `.rs`.
pub open spec fn ends_with_rs(t: Seq<char>) -> bool {
    t.len() >= 3 && t[t.len() - 3] == '.' && t[t.len() - 2] == 'r' && t[t.len() - 1] == 's'
}

/// The position of the first argument equal to `key`.
pub open spec fn position_of(args: Seq<Seq<char>>, key: Seq<char>) -> Option<int>
    decreases args.len(),
{
    if args.len() == 0 {
        None
    } else {
        match position_of(args.drop_last(), key) {
            Some(i) => Some(i),
            None => if args.last() == key {
                Some(args.len() - 1)
            } else {
                None
            },
        }
    }
}

/// The arguments that name a `.rs` file, in any case.
pub open spec fn rs_file_args(args: Seq<Seq<char>>) -> Seq<Seq<char>>
    decreases args.len(),
{
    if args.len() == 0 {
        Seq::empty()
    } else {
        let r = rs_file_args(args.drop_last());
        if ends_with_rs(lowercase(args.last())) {
            r.push(args.last())
        } else {
            r
        }
    }
}

proof fn lemma_position_of(args: Seq<Seq<char>>, key: Seq<char>)
    ensures
        position_of(args, key) matches Some(i) ==> 0 <= i < args.len() && args[i] == key,
    decreases args.len(),
{
    if args.len() > 0 {
        lemma_position_of(args.drop_last(), key);
    }
}

/// Whether the text ends with `.rs`.
fn exec_ends_with_rs(t: &str) -> (r: bool)
    ensures
        r == ends_with_rs(t@),
{
    let n = t.unicode_len();
    n >= 3 && t.get_char(n - 3) == '.' && t.get_char(n - 2) == 'r' && t.get_char(n - 1) == 's'
}

/// Reads the command line of a `rustc` invocation: the value of its first
/// `--out-dir` argument, and the arguments that name `.rs` files, in order.
pub fn scan_rustc_args(args: &Vec<String>) -> (r: Result<(String, Vec<String>), CustomExecutorError>)
    ensures
        match position_of(strings_view(args@), "--out-dir"@) {
            None => r == Err::<(String, Vec<String>), CustomExecutorError>(
                CustomExecutorError::OutDirKeyMissing,
            ),
            Some(i) => if i + 1 >= args@.len() {
                r == Err::<(String, Vec<String>), CustomExecutorError>(
                    CustomExecutorError::OutDirValueMissing,
                )
            } else {
                r matches Ok((out_dir, files)) && out_dir@ == args@[i + 1]@ && strings_view(files@)
                    == rs_file_args(strings_view(args@))
            },
        },
{
    let ghost a = strings_view(args@);
    let mut key: Option<usize> = None;
    let mut i: usize = 0;
    while i < args.len()
        invariant
            a == strings_view(args@),
            i <= args.len(),
            match key {
                Some(k) => position_of(a.take(i as int), "--out-dir"@) == Some(k as int),
                None => position_of(a.take(i as int), "--out-dir"@) is None,
            },
        decreases args.len() - i,
    {
        proof {
            assert(a.take(i as int + 1).drop_last() =~= a.take(i as int));
            assert(a.take(i as int + 1).last() == args@[i as int]@);
        }
        if key.is_none() && crate::text::text_is(&args[i], "--out-dir") {
            key = Some(i);
        }
        i = i + 1;
    }
    proof {
        assert(a.take(a.len() as int) =~= a);
        lemma_position_of(a, "--out-dir"@);
    }
    let k = match key {
        None => {
            return Err(CustomExecutorError::OutDirKeyMissing);
        },
        Some(k) => k,
    };
    if k + 1 >= args.len() {
        return Err(CustomExecutorError::OutDirValueMissing);
    }
    let out_dir = args[k + 1].clone();
    assert(out_dir@ == args@[k + 1]@);
    let mut files: Vec<String> = Vec::new();
    let mut j: usize = 0;
    while j < args.len()
        invariant
            a == strings_view(args@),
            j <= args.len(),
            strings_view(files@) == rs_file_args(a.take(j as int)),
        decreases args.len() - j,
    {
        proof {
            assert(a.take(j as int + 1).drop_last() =~= a.take(j as int));
        }
        let lower = to_lowercase(args[j].as_str());
        if exec_ends_with_rs(lower.as_str()) {
            let ghost before = files@;
            let f = args[j].clone();
            files.push(f);
            proof {
                assert(strings_view(files@) =~= strings_view(before).push(args@[j as int]@));
            }
        }
        j = j + 1;
    }
    proof {
        assert(a.take(a.len() as int) =~= a);
    }
    Ok((out_dir, files))
}

} // verus!
