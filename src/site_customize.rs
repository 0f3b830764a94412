//! The command that re-validates an environment, and the launch-time script
//! that runs it.

use vstd::prelude::*;

use crate::texts;

verus! {

/// The program that a launch-time script invokes.
pub const FETTER_BIN: &'static str = "fetter";

/// Which differences from the bound a validation permits.
#[derive(Clone, Copy, PartialEq, Eq, Debug, Structural)]
pub struct ValidationFlags {
    pub permit_superset: bool,
    pub permit_subset: bool,
}

/// The texts of optional bound options.
pub open spec fn opt_texts(o: Option<Vec<String>>) -> Option<Seq<Seq<char>>> {
    match o {
        Some(v) => Some(texts(v@)),
        None => None,
    }
}

/// The pieces of `parts` with `sep` between each two.
pub open spec fn join_with(parts: Seq<Seq<char>>, sep: Seq<char>) -> Seq<char>
    decreases parts.len(),
{
    if parts.len() == 0 {
        Seq::empty()
    } else if parts.len() == 1 {
        parts[0]
    } else {
        join_with(parts.drop_last(), sep) + sep + parts.last()
    }
}

/// The arguments of the `validate` subcommand.
pub open spec fn validate_args_spec(
    bound: Seq<char>,
    bound_options: Option<Seq<Seq<char>>>,
    vf: ValidationFlags,
) -> Seq<Seq<char>> {
    seq!["--bound"@, bound] + match bound_options {
        Some(o) => seq!["--bound_options"@] + o,
        None => Seq::empty(),
    } + if vf.permit_subset {
        seq!["--subset"@]
    } else {
        Seq::empty()
    } + if vf.permit_superset {
        seq!["--superset"@]
    } else {
        Seq::empty()
    }
}

/// The whole command line: the program, a banner naming the validation, no
/// caching, the executable, then the subcommand and its arguments.
pub open spec fn validate_command_spec(
    executable: Seq<char>,
    bound: Seq<char>,
    bound_options: Option<Seq<Seq<char>>>,
    vf: ValidationFlags,
) -> Seq<Seq<char>> {
    let args = validate_args_spec(bound, bound_options, vf);
    seq![
        FETTER_BIN@,
        "-b"@,
        "validate "@ + join_with(args, " "@),
        "--cache-duration"@,
        "0"@,
        "-e"@,
        executable,
        "validate"@,
    ] + args
}

/// Each part in single quotes, as a bracketed, comma-separated list.
pub open spec fn quoted_list(parts: Seq<Seq<char>>) -> Seq<char> {
    "["@ + join_with(parts.map_values(|p: Seq<char>| "'"@ + p + "'"@), ", "@) + "]"@
}

pub open spec fn digits() -> Seq<char> {
    "0123456789"@
}

/// The decimal digits of `n`.
pub open spec fn nat_text(n: nat) -> Seq<char>
    decreases n,
{
    if n < 10 {
        seq![digits()[n as int]]
    } else {
        nat_text(n / 10).push(digits()[(n % 10) as int])
    }
}

/// The decimal text of `i`, with a minus sign when it is negative.
pub open spec fn int_text(i: int) -> Seq<char> {
    if i < 0 {
        seq!['-'] + nat_text((-i) as nat)
    } else {
        nat_text(i as nat)
    }
}

/// The launch-time script: it runs the validation command, in `cwd` when one
/// is given, and exits with the given code when the validation fails.
pub open spec fn subprocess_spec(
    executable: Seq<char>,
    bound: Seq<char>,
    bound_options: Option<Seq<Seq<char>>>,
    vf: ValidationFlags,
    exit_else_warn: Option<i32>,
    cwd_option: Option<Seq<char>>,
) -> Seq<char> {
    let cmd = quoted_list(validate_command_spec(executable, bound, bound_options, vf));
    let cwd = match cwd_option {
        Some(p) => ", cwd='"@ + p + "'"@,
        None => Seq::empty(),
    };
    let eew = match exit_else_warn {
        Some(i) => "import sys\nif r.returncode != 0: sys.exit("@ + int_text(i as int)
            + ") # fetter validate failed"@,
        None => Seq::empty(),
    };
    "from subprocess import run\nr = run("@ + cmd + cwd + ")\n"@ + eew
}

/// The parts joined, with `sep` between each two.
pub fn join_parts(parts: &Vec<String>, sep: &str) -> (r: String)
    ensures
        r@ == join_with(texts(parts@), sep@),
{
    let mut r = String::new();
    let mut i: usize = 0;
    while i < parts.len()
        invariant
            0 <= i <= parts@.len(),
            r@ == join_with(texts(parts@).take(i as int), sep@),
        decreases parts@.len() - i,
    {
        proof {
            let t = texts(parts@).take(i + 1);
            assert(t.drop_last() =~= texts(parts@).take(i as int));
            assert(t.last() == parts@[i as int]@);
        }
        if i > 0 {
            r.append(sep);
        }
        r.append(parts[i].as_str());
        proof {
            if i == 0 {
                assert(r@ =~= join_with(texts(parts@).take(1), sep@));
            }
        }
        i = i + 1;
    }
    assert(texts(parts@).take(parts@.len() as int) =~= texts(parts@));
    r
}

/// The arguments of the `validate` subcommand.
pub fn get_validate_args(bound: &str, bound_options: Option<Vec<String>>, vf: &ValidationFlags) -> (r: Vec<String>)
    ensures
        texts(r@) == validate_args_spec(bound@, opt_texts(bound_options), *vf),
{
    let ghost bo = opt_texts(bound_options);
    let mut args: Vec<String> = Vec::new();
    args.push(String::from_str("--bound"));
    args.push(String::from_str(bound));
    assert(texts(args@) =~= seq!["--bound"@, bound@]);
    if let Some(bo_v) = bound_options {
        args.push(String::from_str("--bound_options"));
        let ghost start = texts(args@);
        let mut i: usize = 0;
        while i < bo_v.len()
            invariant
                0 <= i <= bo_v@.len(),
                texts(args@) == start + texts(bo_v@).take(i as int),
            decreases bo_v@.len() - i,
        {
            let ghost before = texts(args@);
            let item = bo_v[i].clone();
            args.push(item);
            assert(texts(args@) =~= before.push(bo_v@[i as int]@));
            assert(texts(bo_v@).take(i + 1) =~= texts(bo_v@).take(i as int).push(bo_v@[i as int]@));
            assert(texts(args@) =~= start + texts(bo_v@).take(i + 1));
            i = i + 1;
        }
        assert(texts(bo_v@).take(bo_v@.len() as int) =~= texts(bo_v@));
    }
    let ghost mid = texts(args@);
    assert(mid =~= seq!["--bound"@, bound@] + match bo {
        Some(o) => seq!["--bound_options"@] + o,
        None => Seq::empty(),
    });
    if vf.permit_subset {
        args.push(String::from_str("--subset"));
    }
    let ghost mid2 = texts(args@);
    assert(mid2 =~= mid + if vf.permit_subset {
        seq!["--subset"@]
    } else {
        Seq::empty()
    });
    if vf.permit_superset {
        args.push(String::from_str("--superset"));
    }
    assert(texts(args@) =~= validate_args_spec(bound@, bo, *vf));
    args
}

/// The command line that validates `executable` against `bound`.
pub fn get_validate_command(
    executable: &str,
    bound: &str,
    bound_options: Option<Vec<String>>,
    vf: &ValidationFlags,
) -> (r: Vec<String>)
    ensures
        texts(r@) == validate_command_spec(executable@, bound@, opt_texts(bound_options), *vf),
{
    let validate_args = get_validate_args(bound, bound_options, vf);
    let banner = String::from_str("validate ").concat(join_parts(&validate_args, " ").as_str());
    let mut args: Vec<String> = Vec::new();
    args.push(String::from_str(FETTER_BIN));
    args.push(String::from_str("-b"));
    args.push(banner);
    args.push(String::from_str("--cache-duration"));
    args.push(String::from_str("0"));
    args.push(String::from_str("-e"));
    args.push(String::from_str(executable));
    args.push(String::from_str("validate"));
    let ghost start = texts(args@);
    let mut i: usize = 0;
    while i < validate_args.len()
        invariant
            0 <= i <= validate_args@.len(),
            texts(args@) == start + texts(validate_args@).take(i as int),
        decreases validate_args@.len() - i,
    {
        let ghost before = texts(args@);
        let item = validate_args[i].clone();
        args.push(item);
        assert(texts(args@) =~= before.push(validate_args@[i as int]@));
        assert(texts(validate_args@).take(i + 1) =~= texts(validate_args@).take(i as int).push(
            validate_args@[i as int]@,
        ));
        assert(texts(args@) =~= start + texts(validate_args@).take(i + 1));
        i = i + 1;
    }
    assert(texts(validate_args@).take(validate_args@.len() as int) =~= texts(validate_args@));
    assert(texts(args@) =~= validate_command_spec(executable@, bound@, opt_texts(bound_options), *vf));
    args
}

/// The parts quoted and listed.
fn quote_list(parts: &Vec<String>) -> (r: String)
    ensures
        r@ == quoted_list(texts(parts@)),
{
    let mut quoted: Vec<String> = Vec::new();
    let mut i: usize = 0;
    while i < parts.len()
        invariant
            0 <= i <= parts@.len(),
            texts(quoted@) == texts(parts@).take(i as int).map_values(|p: Seq<char>| "'"@ + p + "'"@),
        decreases parts@.len() - i,
    {
        let q = String::from_str("'").concat(parts[i].as_str()).concat("'");
        let ghost before = texts(quoted@);
        quoted.push(q);
        assert(texts(quoted@) =~= before.push("'"@ + parts@[i as int]@ + "'"@));
        assert(texts(parts@).take(i + 1) =~= texts(parts@).take(i as int).push(parts@[i as int]@));
        assert(texts(quoted@) =~= texts(parts@).take(i + 1).map_values(|p: Seq<char>| "'"@ + p + "'"@));
        i = i + 1;
    }
    assert(texts(parts@).take(parts@.len() as int) =~= texts(parts@));
    String::from_str("[").concat(join_parts(&quoted, ", ").as_str()).concat("]")
}

/// The decimal digits of `n`.
pub fn nat_to_text(n: u64) -> (r: String)
    ensures
        r@ == nat_text(n as nat),
    decreases n,
{
    proof {
        reveal_strlit("0123456789");
    }
    let d = (n % 10) as usize;
    let digit = "0123456789".substring_char(d, d + 1);
    assert(digit@ =~= seq![digits()[d as int]]);
    if n < 10 {
        String::from_str(digit)
    } else {
        let mut r = nat_to_text(n / 10);
        r.append(digit);
        r
    }
}

/// The decimal text of `i`.
pub fn int_to_text(i: i32) -> (r: String)
    ensures
        r@ == int_text(i as int),
{
    if i < 0 {
        let m = (-(i as i64)) as u64;
        let r = String::from_str("-").concat(nat_to_text(m).as_str());
        proof {
            reveal_strlit("-");
        }
        r
    } else {
        nat_to_text(i as u64)
    }
}

/// The launch-time script that validates `executable` against `bound`.
pub fn get_validation_subprocess(
    executable: &str,
    bound: &str,
    bound_options: Option<Vec<String>>,
    vf: &ValidationFlags,
    exit_else_warn: Option<i32>,
    cwd_option: Option<String>,
) -> (r: String)
    ensures
        r@ == subprocess_spec(
            executable@,
            bound@,
            opt_texts(bound_options),
            *vf,
            exit_else_warn,
            match cwd_option {
                Some(p) => Some(p@),
                None => None,
            },
        ),
{
    let cmd_args = get_validate_command(executable, bound, bound_options, vf);
    let cmd = quote_list(&cmd_args);
    let eew = match exit_else_warn {
        Some(i) => String::from_str("import sys\nif r.returncode != 0: sys.exit(").concat(
            int_to_text(i).as_str(),
        ).concat(") # fetter validate failed"),
        None => String::new(),
    };
    let cwd = match &cwd_option {
        Some(p) => String::from_str(", cwd='").concat(p.as_str()).concat("'"),
        None => String::new(),
    };
    let r = String::from_str("from subprocess import run\nr = run(").concat(cmd.as_str()).concat(
        cwd.as_str(),
    ).concat(")\n").concat(eew.as_str());
    proof {
        assert(r@ =~= subprocess_spec(
            executable@,
            bound@,
            opt_texts(bound_options),
            *vf,
            exit_else_warn,
            match cwd_option {
                Some(p) => Some(p@),
                None => None,
            },
        ));
    }
    r
}

} // verus!
