use vstd::prelude::*;
use vstd::string::{StrSliceExecFns, StringExecFns};
use crate::error::StoreError;
use crate::text::{
    i32_literal_val, join_from, parse_i32, spec_join, spec_trim, str_eq, strings_view, trim,
    valid_i32_literal,
};

verus! {

/// A decoded invocation: what the user asked for, with the branch it
/// concerns already resolved by the caller.
pub enum Command {
    /// List one branch's notes; `true` asks for every branch instead.
    List(String, bool),
    /// Add a note with the given content to the named branch.
    Todo(String, String),
    /// Delete the note at the given 1-based ordinal on the named branch.
    Done(String, i32),
    /// Print usage: a terminal state with no store interaction.
    Help,
}

pub open spec fn is_all_flag(a: Seq<char>) -> bool {
    a == "-a"@ || a == "--all"@ || a == "--all-branches"@
}

pub open spec fn is_help_flag(a: Seq<char>) -> bool {
    a == "-h"@ || a == "--help"@
}

pub open spec fn is_done_word(a: Seq<char>) -> bool {
    a == "done"@ || a == "-"@
}

/// The position of the first `:` in `t`, or `t.len()` when there is none.
pub open spec fn first_colon(t: Seq<char>) -> int
    decreases t.len(),
{
    if t.len() == 0 {
        0
    } else if t[0] == ':' {
        0
    } else {
        1 + first_colon(t.drop_first())
    }
}

/// Whether a `done` target names a branch of its own, as `branch:ordinal`.
pub open spec fn done_override(t: Seq<char>) -> bool {
    first_colon(t) < t.len()
}

/// The branch part of a `branch:ordinal` target.
pub open spec fn done_branch_text(t: Seq<char>) -> Seq<char> {
    t.take(first_colon(t))
}

/// The ordinal part of a `done` target: the whole text when it has no
/// colon, else what stands between the first colon and the next one (or the
/// end) — anything after a second colon is ignored.
pub open spec fn done_index_text(t: Seq<char>) -> Seq<char> {
    if !done_override(t) {
        t
    } else {
        let rest = t.skip(first_colon(t) + 1);
        rest.take(first_colon(rest))
    }
}

proof fn lemma_first_colon_at(t: Seq<char>, i: int)
    requires
        0 <= i <= t.len(),
        forall|k: int| 0 <= k < i ==> #[trigger] t[k] != ':',
        i == t.len() || t[i] == ':',
    ensures
        first_colon(t) == i,
    decreases i,
{
    if i == 0 {
    } else {
        let rest = t.drop_first();
        assert(t[0] != ':');
        assert forall|k: int| 0 <= k < i - 1 implies #[trigger] rest[k] != ':' by {
            assert(rest[k] == t[k + 1]);
        }
        if i < t.len() {
            assert(rest[i - 1] == t[i]);
        }
        lemma_first_colon_at(rest, i - 1);
    }
}

impl Command {
    /// Decodes an argument vector (`args[0]` being the program name) against
    /// the resolved current branch:
    /// no arguments lists the branch; an all-branches flag lists every
    /// branch; a help flag asks for usage; `done <ordinal>` or
    /// `done <branch>:<ordinal>` (also spelt `-`) deletes, rejecting a
    /// missing or non-numeric ordinal as a validation fault; anything else
    /// is content to add, joined with blanks and trimmed.
    pub fn parse_from_args(branch: String, args: &Vec<String>) -> (r: Result<Command, StoreError>)
        requires
            args@.len() >= 1,
        ensures
            ({
                let n = args@.len();
                if n == 1 {
                    r matches Ok(c) && c matches Command::List(b, all) && b@ == branch@ && !all
                } else if n == 2 && is_all_flag(args@[1]@) {
                    r matches Ok(c) && c matches Command::List(b, all) && b@ == branch@ && all
                } else if n == 2 && is_help_flag(args@[1]@) {
                    r matches Ok(c) && c matches Command::Help
                } else if n == 2 && is_done_word(args@[1]@) {
                    r is Err
                } else if n == 3 && is_done_word(args@[1]@) {
                    let t = args@[2]@;
                    &&& (valid_i32_literal(done_index_text(t)) ==> (r matches Ok(c) && c matches
                        Command::Done(b, v) && v as int == i32_literal_val(done_index_text(t))
                        && b@ == (if done_override(t) {
                        done_branch_text(t)
                    } else {
                        branch@
                    })))
                    &&& (!valid_i32_literal(done_index_text(t)) ==> r is Err)
                } else {
                    r matches Ok(c) && c matches Command::Todo(b, content) && b@ == branch@
                        && content@ == spec_trim(spec_join(strings_view(args@).skip(1)))
                }
            }),
    {
        let n = args.len();
        if n == 1 {
            return Ok(Command::List(branch, false));
        }
        if n == 2 {
            let a1 = args[1].as_str();
            if str_eq(a1, "-a") || str_eq(a1, "--all") || str_eq(a1, "--all-branches") {
                return Ok(Command::List(branch, true));
            }
            if str_eq(a1, "-h") || str_eq(a1, "--help") {
                return Ok(Command::Help);
            }
        }
        if (n == 2 || n == 3) && (str_eq(args[1].as_str(), "done") || str_eq(
            args[1].as_str(),
            "-",
        )) {
            if n == 2 {
                return Err(StoreError::Other(String::from_str("missing done index")));
            }
            return Self::parse_done(branch, args[2].as_str());
        }
        let joined = join_from(args, 1);
        let content = trim(joined.as_str()).to_owned();
        Ok(Command::Todo(branch, content))
    }

    /// Decodes the target of a `done`: an ordinal, optionally prefixed with
    /// a branch override as `branch:ordinal`.
    fn parse_done(branch: String, t: &str) -> (r: Result<Command, StoreError>)
        ensures
            valid_i32_literal(done_index_text(t@)) ==> (r matches Ok(c) && c matches
                Command::Done(b, v) && v as int == i32_literal_val(done_index_text(t@)) && b@ == (
            if done_override(t@) {
                done_branch_text(t@)
            } else {
                branch@
            })),
            !valid_i32_literal(done_index_text(t@)) ==> r is Err,
    {
        let tn = t.unicode_len();
        let mut fc: usize = 0;
        while fc < tn && t.get_char(fc) != ':'
            invariant
                0 <= fc <= tn,
                tn == t@.len(),
                forall|k: int| 0 <= k < fc ==> #[trigger] t@[k] != ':',
            decreases tn - fc,
        {
            fc += 1;
        }
        proof {
            lemma_first_colon_at(t@, fc as int);
        }
        if fc == tn {
            match parse_i32(t) {
                Some(v) => Ok(Command::Done(branch, v)),
                None => Err(StoreError::Other(String::from_str("invalid done index"))),
            }
        } else {
            let mut sc: usize = fc + 1;
            while sc < tn && t.get_char(sc) != ':'
                invariant
                    fc + 1 <= sc <= tn,
                    tn == t@.len(),
                    forall|k: int| fc + 1 <= k < sc ==> #[trigger] t@[k] != ':',
                decreases tn - sc,
            {
                sc += 1;
            }
            proof {
                let rest = t@.skip(fc as int + 1);
                assert forall|k: int| 0 <= k < sc - fc - 1 implies #[trigger] rest[k] != ':' by {
                    assert(rest[k] == t@[fc + 1 + k]);
                }
                if sc < tn {
                    assert(rest[sc - fc - 1] == t@[sc as int]);
                }
                lemma_first_colon_at(rest, sc - fc - 1);
                assert(rest.take(sc - fc - 1) =~= t@.subrange(fc as int + 1, sc as int));
                assert(t@.take(fc as int) =~= t@.subrange(0, fc as int));
            }
            let override_branch = t.substring_char(0, fc).to_owned();
            let index_text = t.substring_char(fc + 1, sc);
            match parse_i32(index_text) {
                Some(v) => Ok(Command::Done(override_branch, v)),
                None => Err(StoreError::Other(String::from_str("invalid done index"))),
            }
        }
    }
}

} // verus!
