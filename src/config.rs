use vstd::prelude::*;

verus! {

/// The settings of one search: what to look for, where, and how.
pub struct Config {
    /// The text to look for.
    pub query: String,
    /// The name of the file to search.
    pub filename: String,
    /// Whether lines must contain the query exactly; otherwise case is
    /// ignored.
    pub case_sensitive: bool,
    /// Read from `CASE_SKIPSPACE` and kept for callers; no search reads it.
    pub case_skip_space: bool,
}

/// The value of `name` in `env`: that of its first entry under that name.
pub open spec fn lookup(env: Seq<(String, String)>, name: Seq<char>) -> Option<Seq<char>>
    decreases env.len(),
{
    if env.len() == 0 {
        None
    } else if env[0].0@ == name {
        Some(env[0].1@)
    } else {
        lookup(env.drop_first(), name)
    }
}

/// A variable counts as set when it is present with a value other than `"0"`.
pub open spec fn is_set(value: Option<Seq<char>>) -> bool {
    match value {
        Some(v) => v != seq!['0'],
        None => false,
    }
}

/// Whether the variable `name` is set in `env`.
fn env_flag(env: &[(String, String)], name: &str) -> (r: bool)
    ensures
        r == is_set(lookup(env@, name@)),
{
    let wanted = String::from_str(name);
    let zero = String::from_str("0");
    proof {
        reveal_strlit("0");
        assert(env@.skip(0) =~= env@);
    }
    let mut k: usize = 0;
    while k < env.len()
        invariant
            k <= env@.len(),
            wanted@ == name@,
            zero@ == seq!['0'],
            lookup(env@, name@) == lookup(env@.skip(k as int), name@),
        decreases env@.len() - k,
    {
        proof {
            assert(env@.skip(k as int).drop_first() =~= env@.skip(k + 1));
        }
        if env[k].0 == wanted {
            return !(env[k].1 == zero);
        }
        k = k + 1;
    }
    false
}

impl Config {
    /// Reads the query and the file name from `args` (after the program
    /// name) and the case settings from the variables in `env`. Fails
    /// when `args` holds fewer than three items.
    pub fn new(args: &[String], env: &[(String, String)]) -> (r: Result<Config, &'static str>)
        ensures
            r is Err <==> args@.len() < 3,
            r matches Err(e) ==> e@ == "not enough arguments"@,
            r matches Ok(c) ==> {
                &&& c.query@ == args@[1]@
                &&& c.filename@ == args@[2]@
                &&& c.case_sensitive == !is_set(lookup(env@, "CASE_INSENSITIVE"@))
                &&& c.case_skip_space == is_set(lookup(env@, "CASE_SKIPSPACE"@))
            },
    {
        if args.len() < 3 {
            return Err("not enough arguments");
        }
        let query = args[1].clone();
        let filename = args[2].clone();
        let case_sensitive = !env_flag(env, "CASE_INSENSITIVE");
        let case_skip_space = env_flag(env, "CASE_SKIPSPACE");
        Ok(Config { query, filename, case_sensitive, case_skip_space })
    }
}

} // verus!
