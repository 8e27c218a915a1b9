//! The command-line surface as plain data: the subcommand a run
//! executes, the resolution of the download address, of the model path
//! and of the walk root, and the messages the commands report with.

use vstd::prelude::*;

verus! {

use vstd::string::StringExecFns;
use crate::text::chars_of;
use crate::text::string_of;

/// The subcommand a run executes. Each run parses its arguments into
/// exactly one of these and performs that one action.
pub enum Command {
    /// Download the model file, from the given address or the default
    /// one.
    Init { url: Option<String> },
    /// Report on documentation quality (not implemented).
    Check,
    /// Walk a source tree and suggest documentation for its functions.
    Suggest { path: Option<String> },
    /// Delete the downloaded model file.
    Clean,
}

/// The address the model is fetched from when none is given.
pub open spec fn default_model_url() -> Seq<char> {
    "https://huggingface.co/TheBloke/CodeLlama-13B-Instruct-GGUF/resolve/main/codellama-13b-instruct.Q4_K_M.gguf?download=true"@
}

/// The download address for `init`: the given one, or the default.
pub fn resolve_url(url: Option<String>) -> (r: String)
    ensures
        url matches Some(u) ==> r@ == u@,
        url is None ==> r@ == default_model_url(),
{
    match url {
        Some(u) => u,
        None => String::from_str(
            "https://huggingface.co/TheBloke/CodeLlama-13B-Instruct-GGUF/resolve/main/codellama-13b-instruct.Q4_K_M.gguf?download=true",
        ),
    }
}

/// The model file's name.
pub open spec fn model_file_name() -> Seq<char> {
    "clarify_model.gguf"@
}

/// The model path used where no data directory exists.
pub open spec fn fallback_model_path() -> Seq<char> {
    "~/.clarify_model.gguf"@
}

/// `k` is the index of the last separator in `s`.
pub open spec fn is_last_slash(s: Seq<char>, k: int) -> bool {
    0 <= k < s.len() && s[k] == '/' && forall|m: int| k < m < s.len() ==> s[m] != '/'
}

/// `dir` with everything after its last separator replaced by `name`;
/// just `name` where `dir` has no separator.
pub open spec fn with_file_name(dir: Seq<char>, name: Seq<char>) -> Seq<char> {
    if exists|k: int| #[trigger] is_last_slash(dir, k) {
        dir.take((choose|k: int| is_last_slash(dir, k)) + 1) + name
    } else {
        name
    }
}

proof fn lemma_last_slash_unique(s: Seq<char>, a: int, b: int)
    requires
        is_last_slash(s, a),
        is_last_slash(s, b),
    ensures
        a == b,
{
    if a < b {
        assert(s[b] == '/');
        assert(false);
    } else if b < a {
        assert(s[a] == '/');
        assert(false);
    }
}

/// The default model path: the platform data directory with its final
/// component replaced by the model file's name, or the home fallback
/// where no data directory exists.
pub fn default_model_path(data_dir: Option<String>) -> (r: String)
    ensures
        data_dir matches Some(d) ==> r@ == with_file_name(d@, model_file_name()),
        data_dir is None ==> r@ == fallback_model_path(),
{
    match data_dir {
        None => String::from_str("~/.clarify_model.gguf"),
        Some(d) => {
            let cs = chars_of(d.as_str());
            let mut j: usize = cs.len();
            while j > 0 && cs[j - 1] != '/'
                invariant
                    cs@ == d@,
                    j <= cs@.len(),
                    forall|m: int| j <= m < cs@.len() ==> cs@[m] != '/',
                decreases j,
            {
                j = j - 1;
            }
            if j == 0 {
                proof {
                    if exists|k: int| #[trigger] is_last_slash(d@, k) {
                        let k = choose|k: int| is_last_slash(d@, k);
                        assert(d@[k] == '/');
                        assert(false);
                    }
                }
                String::from_str("clarify_model.gguf")
            } else {
                proof {
                    assert(is_last_slash(d@, j - 1));
                }
                let mut prefix: Vec<char> = Vec::new();
                let mut i: usize = 0;
                while i < j
                    invariant
                        cs@ == d@,
                        j <= cs@.len(),
                        i <= j,
                        prefix@ == cs@.take(i as int),
                    decreases j - i,
                {
                    prefix.push(cs[i]);
                    i = i + 1;
                    proof {
                        assert(prefix@ =~= cs@.take(i as int));
                    }
                }
                let mut r = string_of(&prefix);
                r.append("clarify_model.gguf");
                proof {
                    let k = choose|k: int| is_last_slash(d@, k);
                    lemma_last_slash_unique(d@, k, j - 1);
                    assert(r@ == d@.take(j as int) + model_file_name());
                }
                r
            }
        },
    }
}

/// The model path `suggest` uses: the environment override where one is
/// set, else the given default path.
pub fn resolve_model_path(env_override: Option<String>, default_path: String) -> (r: String)
    ensures
        env_override matches Some(o) ==> r@ == o@,
        env_override is None ==> r@ == default_path@,
{
    match env_override {
        Some(o) => o,
        None => default_path,
    }
}

/// The root `suggest` walks: the given path, or the current directory.
pub fn suggest_root(path: Option<String>) -> (r: String)
    ensures
        path matches Some(p) ==> r@ == p@,
        path is None ==> r@ == "."@,
{
    match path {
        Some(p) => p,
        None => String::from_str("."),
    }
}

/// What `check` reports: the feature is not implemented, and no other
/// action is taken.
pub fn check_message() -> (r: String)
    ensures
        r@
            == "check is not implemented: it will report code lacking documentation, and code whose documentation looks out of date"@,
{
    String::from_str(
        "check is not implemented: it will report code lacking documentation, and code whose documentation looks out of date",
    )
}

/// The message `clean` fails with when the model file cannot be
/// removed: it names the path.
pub fn clean_failure_message(path: &str) -> (r: String)
    ensures
        r@ == "Unable to delete "@ + path@,
{
    let mut r = String::from_str("Unable to delete ");
    r.append(path);
    r
}

/// The outcome of `clean`, given whether the removal of the model file
/// succeeded: a failed removal — the file being missing included — is
/// an error naming the path, never a silent success.
pub fn clean_outcome(removed: bool, path: &str) -> (r: Result<(), String>)
    ensures
        removed == (r is Ok),
        !removed ==> (r matches Err(m) && m@ == "Unable to delete "@ + path@),
{
    if removed {
        Ok(())
    } else {
        Err(clean_failure_message(path))
    }
}

/// The message `init` reports a successful download with: it names the
/// address fetched and the destination written.
pub fn init_success_message(url: &str, dest: &str) -> (r: String)
    ensures
        r@ == "Clarify has been initialized!\n\n"@ + url@ + "\nhas been downloaded into\n"@
            + dest@,
{
    let mut r = String::from_str("Clarify has been initialized!\n\n");
    r.append(url);
    r.append("\nhas been downloaded into\n");
    r.append(dest);
    proof {
        assert(r@ =~= "Clarify has been initialized!\n\n"@ + url@
            + "\nhas been downloaded into\n"@ + dest@);
    }
    r
}

/// The message `init` reports a failed fetch with: it names the address
/// and the failure's detail.
pub fn init_failure_message(url: &str, detail: &str) -> (r: String)
    ensures
        r@ == "Failed to fetch "@ + url@ + ":\n\n"@ + detail@,
{
    let mut r = String::from_str("Failed to fetch ");
    r.append(url);
    r.append(":\n\n");
    r.append(detail);
    proof {
        assert(r@ =~= "Failed to fetch "@ + url@ + ":\n\n"@ + detail@);
    }
    r
}

} // verus!
