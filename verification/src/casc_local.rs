//! The rules of the extraction command line: argument parsing, output file
//! names and the final tally.

use vstd::prelude::*;

use crate::text::{
    append_str, decimal, extension_of, is_digit, last_dot, lemma_extension_at_last_dot, owned, parse_u32,
    parsed_u32, push_char, push_decimal,
};

verus! {

/// The option that names the output directory.
pub open spec fn output_flag() -> Seq<char> {
    seq!['-', 'o']
}

/// The output directory used when no `-o` option is given.
pub open spec fn default_output_dir() -> Seq<char> {
    seq!['.']
}

/// The FileDataIDs and output directory read from `args[i..]`, given those
/// read before position `i`: `-o` followed by another argument sets the
/// output directory (the last one wins), an argument that parses as a `u32`
/// is a FileDataID, and anything else is skipped.
pub open spec fn args_from(args: Seq<Seq<char>>, i: int, fdids: Seq<u32>, out: Seq<char>) -> (
    Seq<u32>,
    Seq<char>,
)
    decreases args.len() - i,
{
    if i < 0 || i >= args.len() {
        (fdids, out)
    } else if args[i] == output_flag() && i + 1 < args.len() {
        args_from(args, i + 2, fdids, args[i + 1])
    } else if parsed_u32(args[i]) is Some {
        args_from(args, i + 1, fdids.push(parsed_u32(args[i])->0), out)
    } else {
        args_from(args, i + 1, fdids, out)
    }
}

/// The FileDataIDs and output directory that a whole argument list asks for.
pub open spec fn parsed_args(args: Seq<Seq<char>>) -> (Seq<u32>, Seq<char>) {
    args_from(args, 0, Seq::empty(), default_output_dir())
}

proof fn lemma_args_from_shape(args: Seq<Seq<char>>, i: int, fdids: Seq<u32>, out: Seq<char>)
    requires
        0 <= i <= args.len(),
    ensures
        (forall|j: int| i <= j < args.len() ==> args[j] != output_flag()) ==> args_from(args, i, fdids, out).1 == out,
        args_from(args, i, fdids, out).0.len() <= fdids.len() + args.len() - i,
        args_from(args, i, fdids, out).0.len() >= fdids.len(),
        args_from(args, i, fdids, out).0.subrange(0, fdids.len() as int) == fdids,
        forall|k: int| fdids.len() <= k < args_from(args, i, fdids, out).0.len() ==> exists|j: int|
            i <= j < args.len() && parsed_u32(#[trigger] args[j]) == Some(#[trigger] args_from(args, i, fdids, out).0[k]),
        (forall|j: int| i <= j < args.len() ==> parsed_u32(#[trigger] args[j]) is Some) ==> {
            &&& args_from(args, i, fdids, out).0.len() == fdids.len() + args.len() - i
            &&& forall|k: int| 0 <= k < args.len() - i ==> Some(#[trigger] args_from(args, i, fdids, out).0[fdids.len() + k])
                == parsed_u32(args[i + k])
        },
    decreases args.len() - i,
{
    reveal_strlit("-o");
    let r = args_from(args, i, fdids, out);
    if i < args.len() {
        if args[i] == output_flag() && i + 1 < args.len() {
            lemma_args_from_shape(args, i + 2, fdids, args[i + 1]);
            assert(parsed_u32(args[i]) is None) by {
                assert(args[i][0] == '-');
                assert(args[i][1] == 'o');
                if args[i].len() > 0 && args[i][0] == '+' {
                } else {
                    assert(!is_digit(args[i][0]));
                }
            }
        } else if parsed_u32(args[i]) is Some {
            let f2 = fdids.push(parsed_u32(args[i])->0);
            lemma_args_from_shape(args, i + 1, f2, out);
            assert(r.0.subrange(0, f2.len() as int) == f2);
            assert(r.0.subrange(0, fdids.len() as int) =~= f2.subrange(0, fdids.len() as int));
            assert(f2.subrange(0, fdids.len() as int) =~= fdids);
            assert forall|k: int| fdids.len() <= k < r.0.len() implies exists|j: int|
                i <= j < args.len() && parsed_u32(#[trigger] args[j]) == Some(#[trigger] r.0[k]) by {
                if k == fdids.len() {
                    assert(r.0[k] == r.0.subrange(0, f2.len() as int)[k]);
                    assert(parsed_u32(args[i]) == Some(r.0[k]));
                }
            }
            if forall|j: int| i <= j < args.len() ==> parsed_u32(#[trigger] args[j]) is Some {
                assert forall|k: int| 0 <= k < args.len() - i implies Some(#[trigger] r.0[fdids.len() + k])
                    == parsed_u32(args[i + k]) by {
                    if k == 0 {
                        assert(r.0[fdids.len() as int] == r.0.subrange(0, f2.len() as int)[fdids.len() as int]);
                    } else {
                        assert(r.0[f2.len() + (k - 1)] == r.0[fdids.len() + k]);
                        assert(args[(i + 1) + (k - 1)] == args[i + k]);
                    }
                }
            }
        } else {
            lemma_args_from_shape(args, i + 1, fdids, out);
        }
    } else {
        assert(fdids.subrange(0, fdids.len() as int) =~= fdids);
    }
}

/// Law: what the argument list gives. Without an `-o` option the output
/// directory stays `.`; there are never more FileDataIDs than arguments, and
/// each is the value of some argument; when every argument reads as a
/// number, the FileDataIDs are exactly those numbers in argument order.
pub proof fn lemma_parsed_args_shape(args: Seq<Seq<char>>)
    ensures
        (forall|j: int| 0 <= j < args.len() ==> args[j] != "-o"@) ==> parsed_args(args).1 == "."@,
        parsed_args(args).0.len() <= args.len(),
        forall|k: int| 0 <= k < parsed_args(args).0.len() ==> exists|j: int|
            0 <= j < args.len() && parsed_u32(#[trigger] args[j]) == Some(#[trigger] parsed_args(args).0[k]),
        (forall|j: int| 0 <= j < args.len() ==> parsed_u32(#[trigger] args[j]) is Some) ==> {
            &&& parsed_args(args).0.len() == args.len()
            &&& forall|k: int| 0 <= k < args.len() ==> Some(#[trigger] parsed_args(args).0[k]) == parsed_u32(args[k])
        },
{
    reveal_strlit("-o");
    reveal_strlit(".");
    assert("-o"@ =~= output_flag());
    assert("."@ =~= default_output_dir());
    lemma_args_from_shape(args, 0, Seq::empty(), default_output_dir());
    if forall|j: int| 0 <= j < args.len() ==> parsed_u32(#[trigger] args[j]) is Some {
        assert forall|k: int| 0 <= k < args.len() implies Some(#[trigger] parsed_args(args).0[k]) == parsed_u32(args[k]) by {
            assert(parsed_args(args).0[0 + k] == parsed_args(args).0[k]);
            assert(args[0 + k] == args[k]);
        }
    }
}

/// The views of a list of owned strings.
pub open spec fn string_views(args: Seq<String>) -> Seq<Seq<char>> {
    args.map_values(|a: String| a@)
}

/// Whether `s` is exactly the `-o` option.
fn is_output_flag(s: &str) -> (res: bool)
    ensures
        res == (s@ == output_flag()),
{
    let n = s.unicode_len();
    if n != 2 {
        return false;
    }
    let res = s.get_char(0) == '-' && s.get_char(1) == 'o';
    proof {
        if res {
            assert(s@ =~= output_flag());
        }
    }
    res
}

/// Reads the FileDataIDs and the output directory (`-o <dir>`, default `.`)
/// from the command-line arguments.
pub fn parse_args(args: &Vec<String>) -> (res: (Vec<u32>, String))
    ensures
        (res.0@, res.1@) == parsed_args(string_views(args@)),
{
    let ghost views = string_views(args@);
    let mut fdids: Vec<u32> = Vec::new();
    let mut output_dir = String::new();
    push_char(&mut output_dir, '.');
    assert(output_dir@ =~= default_output_dir());
    let mut i: usize = 0;
    while i < args.len()
        invariant
            views == string_views(args@),
            i <= args.len() + 1,
            args_from(views, i as int, fdids@, output_dir@) == parsed_args(views),
        decreases args.len() - i,
    {
        let arg = args[i].as_str();
        assert(views[i as int] == arg@);
        if is_output_flag(arg) && i + 1 < args.len() {
            output_dir = owned(args[i + 1].as_str());
            assert(views[i + 1] == output_dir@);
            i = i + 2;
        } else {
            match parse_u32(arg) {
                Some(fdid) => {
                    fdids.push(fdid);
                },
                None => {},
            }
            i = i + 1;
        }
    }
    (fdids, output_dir)
}

/// The file extension of a listfile path: the text behind its last `.`.
pub fn extension_from_listfile_path(path: &str) -> (res: Option<&str>)
    ensures
        match res {
            Some(ext) => extension_of(path@) == Some(ext@),
            None => extension_of(path@) is None,
        },
        forall|j: int|
            0 <= j < path@.len() && #[trigger] path@[j] == '.' && (forall|k: int| j < k < path@.len() ==> path@[k] != '.')
                ==> (res matches Some(ext) && ext@ == path@.subrange(j + 1, path@.len() as int)),
        (forall|k: int| 0 <= k < path@.len() ==> path@[k] != '.') ==> res is None,
{
    proof {
        lemma_extension_at_last_dot(path@);
    }
    let n = path.unicode_len();
    let mut i: usize = n;
    while i > 0
        invariant
            n == path@.len(),
            i <= n,
            forall|k: int| i <= k < n ==> path@[k] != '.',
        decreases i,
    {
        if path.get_char(i - 1) == '.' {
            let ext = path.substring_char(i, n);
            proof {
                lemma_extension_at_last_dot(path@);
                if let Some(j) = last_dot(path@) {
                    if j < i - 1 {
                        assert(path@[i - 1] == '.');
                    }
                    assert(j == i - 1);
                } else {
                    assert(path@[i - 1] == '.');
                }
            }
            proof {
                assert forall|j: int|
                    0 <= j < path@.len() && #[trigger] path@[j] == '.' && (forall|k: int| j < k < path@.len() ==> path@[k] != '.')
                        implies ext@ == path@.subrange(j + 1, path@.len() as int) by {
                    lemma_extension_after_last_dot(path@, j);
                }
                lemma_extension_after_last_dot(path@, 0);
            }
            return Some(ext);
        }
        i = i - 1;
    }
    proof {
        lemma_extension_at_last_dot(path@);
        if let Some(j) = last_dot(path@) {
            assert(path@[j] == '.');
        }
        assert forall|j: int|
            0 <= j < path@.len() && #[trigger] path@[j] == '.' && (forall|k: int| j < k < path@.len() ==> path@[k] != '.')
                implies false by {
            lemma_extension_after_last_dot(path@, j);
        }
    }
    None
}



/// Law: the extension of a path is the text behind its last `.`. When `j` is
/// the position of a `.` with no `.` after it, the extension is everything
/// after `j`; a path with no `.` has none.
pub proof fn lemma_extension_after_last_dot(p: Seq<char>, j: int)
    ensures
        0 <= j < p.len() && p[j] == '.' && (forall|k: int| j < k < p.len() ==> p[k] != '.')
            ==> extension_of(p) == Some(p.subrange(j + 1, p.len() as int)),
        (forall|k: int| 0 <= k < p.len() ==> p[k] != '.') ==> extension_of(p) is None,
{
    lemma_extension_at_last_dot(p);
    if 0 <= j < p.len() && p[j] == '.' && (forall|k: int| j < k < p.len() ==> p[k] != '.') {
        if let Some(i) = last_dot(p) {
            if i < j {
                assert(p[j] != '.');
            }
            if j < i {
                assert(p[i] != '.');
            }
        } else {
            assert(p[j] != '.');
        }
    }
    if forall|k: int| 0 <= k < p.len() ==> p[k] != '.' {
        if let Some(i) = last_dot(p) {
            assert(p[i] != '.');
        }
    }
}

/// The extension used when a FileDataID has no listfile path or the path has
/// no extension.
pub open spec fn fallback_extension() -> Seq<char> {
    seq!['d', 'a', 't']
}

/// The name under which an extracted file is written: its FileDataID in
/// decimal, a `.`, and the extension of its listfile path (`dat` when there
/// is none).
pub open spec fn fdid_file_name(fdid: u32, listfile_path: Option<Seq<char>>) -> Seq<char> {
    let ext = match listfile_path {
        Some(p) => match extension_of(p) {
            Some(e) => e,
            None => fallback_extension(),
        },
        None => fallback_extension(),
    };
    decimal(fdid as nat) + seq!['.'] + ext
}

/// Law: the output name of a FileDataID is its decimal form, `.`, and the
/// text behind the last `.` of its listfile path, which holds no `.`; it ends
/// in `.dat` when there is no listfile path or the path has no `.`.
pub proof fn lemma_file_name_uses_last_dot(fdid: u32, path: Seq<char>, j: int)
    ensures
        0 <= j < path.len() && path[j] == '.' && (forall|k: int| j < k < path.len() ==> path[k] != '.') ==> {
            &&& fdid_file_name(fdid, Some(path)) == decimal(fdid as nat) + "."@ + path.subrange(j + 1, path.len() as int)
            &&& forall|k: int| 0 <= k < path.len() - (j + 1) ==> #[trigger] path.subrange(j + 1, path.len() as int)[k] != '.'
        },
        (forall|k: int| 0 <= k < path.len() ==> path[k] != '.') ==> fdid_file_name(fdid, Some(path))
            == decimal(fdid as nat) + ".dat"@,
        fdid_file_name(fdid, None) == decimal(fdid as nat) + ".dat"@,
{
    reveal_strlit(".");
    reveal_strlit(".dat");
    assert(seq!['.'] =~= "."@);
    lemma_extension_after_last_dot(path, j);
    assert(decimal(fdid as nat) + seq!['.'] + fallback_extension() =~= decimal(fdid as nat) + ".dat"@);
}

/// Names the output file of a FileDataID from the listfile path it resolved
/// to, if any.
pub fn file_name_for_fdid(fdid: u32, listfile_path: Option<&str>) -> (res: String)
    ensures
        res@ == fdid_file_name(fdid, match listfile_path {
            Some(p) => Some(p@),
            None => None,
        }),
        match listfile_path {
            Some(p) => (forall|j: int|
                0 <= j < p@.len() && #[trigger] p@[j] == '.' && (forall|k: int| j < k < p@.len() ==> p@[k] != '.')
                    ==> res@ == decimal(fdid as nat) + "."@ + p@.subrange(j + 1, p@.len() as int))
                && ((forall|k: int| 0 <= k < p@.len() ==> p@[k] != '.') ==> res@ == decimal(fdid as nat) + ".dat"@),
            None => res@ == decimal(fdid as nat) + ".dat"@,
        },
{
    let mut res = String::new();
    push_decimal(&mut res, fdid);
    push_char(&mut res, '.');
    let ext = match listfile_path {
        Some(p) => extension_from_listfile_path(p),
        None => None,
    };
    match ext {
        Some(e) => append_str(&mut res, e),
        None => {
            push_char(&mut res, 'd');
            push_char(&mut res, 'a');
            push_char(&mut res, 't');
        },
    }
    assert(res@ =~= fdid_file_name(fdid, match listfile_path {
        Some(p) => Some(p@),
        None => None,
    }));
    proof {
        match listfile_path {
            Some(p) => {
                assert forall|j: int|
                    0 <= j < p@.len() && #[trigger] p@[j] == '.' && (forall|k: int| j < k < p@.len() ==> p@[k] != '.')
                        implies res@ == decimal(fdid as nat) + "."@ + p@.subrange(j + 1, p@.len() as int) by {
                    lemma_file_name_uses_last_dot(fdid, p@, j);
                }
                lemma_file_name_uses_last_dot(fdid, p@, 0);
            },
            None => {
                lemma_file_name_uses_last_dot(fdid, Seq::empty(), 0);
            },
        }
    }
    res
}

/// The number of `true` entries of `s`.
pub open spec fn count_true(s: Seq<bool>) -> nat
    decreases s.len(),
{
    if s.len() == 0 {
        0
    } else {
        count_true(s.drop_last()) + if s.last() {
            1nat
        } else {
            0nat
        }
    }
}

/// Law: counting is additive and bounded: the count of two lists one after
/// the other is the sum of their counts, a list counts at most its length,
/// a single `true` counts one and a single `false` none.
pub proof fn lemma_count_true_adds(a: Seq<bool>, b: Seq<bool>)
    ensures
        count_true(a + b) == count_true(a) + count_true(b),
        count_true(a) <= a.len(),
        count_true(seq![true]) == 1,
        count_true(seq![false]) == 0,
    decreases b.len(),
{
    assert(seq![true].drop_last() =~= Seq::<bool>::empty());
    assert(seq![false].drop_last() =~= Seq::<bool>::empty());
    assert(count_true(Seq::<bool>::empty()) == 0);
    assert(count_true(seq![true]) == count_true(seq![true].drop_last()) + 1);
    assert(count_true(seq![false]) == count_true(seq![false].drop_last()) + 0);
    if b.len() == 0 {
        assert(a + b =~= a);
    } else {
        lemma_count_true_adds(a, b.drop_last());
        assert((a + b).drop_last() =~= a + b.drop_last());
        assert((a + b).last() == b.last());
    }
    lemma_count_true_bounded(a);
}

proof fn lemma_count_true_bounded(a: Seq<bool>)
    ensures
        count_true(a) <= a.len(),
    decreases a.len(),
{
    if a.len() > 0 {
        lemma_count_true_bounded(a.drop_last());
    }
}

/// Counts extractions that succeeded and extractions that failed.
pub fn count_outcomes(outcomes: &Vec<bool>) -> (res: (u32, u32))
    requires
        outcomes.len() <= u32::MAX,
    ensures
        res.0 == count_true(outcomes@),
        res.0 + res.1 == outcomes.len(),
{
    let mut ok: u32 = 0;
    let mut fail: u32 = 0;
    let mut i: usize = 0;
    while i < outcomes.len()
        invariant
            outcomes.len() <= u32::MAX,
            i <= outcomes.len(),
            ok == count_true(outcomes@.subrange(0, i as int)),
            ok + fail == i,
        decreases outcomes.len() - i,
    {
        assert(outcomes@.subrange(0, i + 1).drop_last() =~= outcomes@.subrange(0, i as int));
        if outcomes[i] {
            ok = ok + 1;
        } else {
            fail = fail + 1;
        }
        i = i + 1;
    }
    assert(outcomes@.subrange(0, i as int) =~= outcomes@);
    (ok, fail)
}

} // verus!
