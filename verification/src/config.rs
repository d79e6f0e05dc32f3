//! The run configuration: which repository to benchmark, the build command to
//! measure, and where the persistent source and the disposable build copy
//! live. A configuration is validated once, before a run starts.

use vstd::prelude::*;
use crate::bytes::starts_with;
use crate::run_id::COLON;

verus! {

/// ASCII `/`.
pub const SLASH: u8 = 47;

/// ASCII `@`.
pub const AT: u8 = 64;

/// The bytes of `http://`.
pub open spec fn http_prefix() -> Seq<u8> {
    seq![104u8, 116u8, 116u8, 112u8, COLON, SLASH, SLASH]
}

/// The bytes of `https://`.
pub open spec fn https_prefix() -> Seq<u8> {
    seq![104u8, 116u8, 116u8, 112u8, 115u8, COLON, SLASH, SLASH]
}

/// The bytes of `git@`.
pub open spec fn ssh_prefix() -> Seq<u8> {
    seq![103u8, 105u8, 116u8, AT]
}

/// Whether a repository identifier looks like a URL or an SSH remote: it must
/// open with `http://`, `https://` or `git@`.
pub open spec fn valid_repo_url(s: Seq<u8>) -> bool {
    http_prefix().is_prefix_of(s) || https_prefix().is_prefix_of(s) || ssh_prefix().is_prefix_of(s)
}

/// The bytes of `http://`.
fn http_prefix_bytes() -> (r: Vec<u8>)
    ensures
        r@ == http_prefix(),
{
    let mut v: Vec<u8> = Vec::new();
    v.push(104);
    v.push(116);
    v.push(116);
    v.push(112);
    v.push(COLON);
    v.push(SLASH);
    v.push(SLASH);
    proof {
        assert(v@ =~= http_prefix());
    }
    v
}

/// The bytes of `https://`.
fn https_prefix_bytes() -> (r: Vec<u8>)
    ensures
        r@ == https_prefix(),
{
    let mut v: Vec<u8> = Vec::new();
    v.push(104);
    v.push(116);
    v.push(116);
    v.push(112);
    v.push(115);
    v.push(COLON);
    v.push(SLASH);
    v.push(SLASH);
    proof {
        assert(v@ =~= https_prefix());
    }
    v
}

/// The bytes of `git@`.
fn ssh_prefix_bytes() -> (r: Vec<u8>)
    ensures
        r@ == ssh_prefix(),
{
    let mut v: Vec<u8> = Vec::new();
    v.push(103);
    v.push(105);
    v.push(116);
    v.push(AT);
    proof {
        assert(v@ =~= ssh_prefix());
    }
    v
}

/// Accepts a repository identifier exactly when it opens with `http://`,
/// `https://` or `git@`; every other identifier is rejected.
pub fn is_valid_repo_url(url: &[u8]) -> (r: bool)
    ensures
        r == valid_repo_url(url@),
{
    let http = http_prefix_bytes();
    if starts_with(url, http.as_slice()) {
        return true;
    }
    let https = https_prefix_bytes();
    if starts_with(url, https.as_slice()) {
        return true;
    }
    let ssh = ssh_prefix_bytes();
    starts_with(url, ssh.as_slice())
}

/// Whether a byte is ASCII whitespace: the separators a command string may
/// hold between its tokens.
pub open spec fn is_space(b: u8) -> bool {
    b == 32 || b == 9 || b == 10 || b == 11 || b == 12 || b == 13
}

/// The whitespace-separated tokens of `s`, with `cur` the partial token read
/// so far: a space closes the partial token, any other byte extends it.
pub open spec fn split_tokens_from(s: Seq<u8>, cur: Seq<u8>) -> Seq<Seq<u8>>
    decreases s.len(),
{
    if s.len() == 0 {
        if cur.len() == 0 {
            Seq::empty()
        } else {
            seq![cur]
        }
    } else if is_space(s[0]) {
        if cur.len() == 0 {
            split_tokens_from(s.skip(1), Seq::empty())
        } else {
            seq![cur] + split_tokens_from(s.skip(1), Seq::empty())
        }
    } else {
        split_tokens_from(s.skip(1), cur.push(s[0]))
    }
}

/// The whitespace-separated tokens of a command string, in order: the maximal
/// runs of non-space bytes.
pub open spec fn split_tokens(s: Seq<u8>) -> Seq<Seq<u8>> {
    split_tokens_from(s, Seq::empty())
}

/// Whether a byte string holds no whitespace at all.
pub open spec fn space_free(t: Seq<u8>) -> bool {
    forall|k: int| 0 <= k < t.len() ==> !is_space(#[trigger] t[k])
}

/// Whether every token in a list is a word: nonempty and free of whitespace.
pub open spec fn word_tokens(ts: Seq<Seq<u8>>) -> bool {
    forall|i: int| 0 <= i < ts.len() ==> (#[trigger] ts[i]).len() > 0 && space_free(ts[i])
}

/// Tokens of `split_tokens_from` are words, as long as the partial token
/// carried in holds no whitespace.
proof fn lemma_tokens_from_words(s: Seq<u8>, cur: Seq<u8>)
    requires
        space_free(cur),
    ensures
        word_tokens(split_tokens_from(s, cur)),
    decreases s.len(),
{
    let out = split_tokens_from(s, cur);
    if s.len() == 0 {
        if cur.len() > 0 {
            assert(out[0] == cur);
        }
    } else if is_space(s[0]) {
        lemma_tokens_from_words(s.skip(1), Seq::empty());
        let rec = split_tokens_from(s.skip(1), Seq::<u8>::empty());
        if cur.len() > 0 {
            assert forall|i: int| 0 <= i < out.len() implies (#[trigger] out[i]).len() > 0
                && space_free(out[i]) by {
                if i == 0 {
                    assert(out[0] == cur);
                } else {
                    assert(out[i] == rec[i - 1]);
                }
            }
        } else {
            assert(cur =~= Seq::<u8>::empty());
        }
    } else {
        assert forall|k: int| 0 <= k < cur.push(s[0]).len() implies !is_space(
            cur.push(s[0])[k],
        ) by {
            if k < cur.len() {
                assert(cur.push(s[0])[k] == cur[k]);
            }
        }
        lemma_tokens_from_words(s.skip(1), cur.push(s[0]));
    }
}

/// Law: a split command is an argv-style token list — every token is nonempty
/// and holds no whitespace.
pub proof fn lemma_tokens_are_words(s: Seq<u8>)
    ensures
        word_tokens(split_tokens(s)),
{
    lemma_tokens_from_words(s, Seq::empty());
}

/// The byte strings that a vector of tokens holds.
pub open spec fn token_views(ts: Seq<Vec<u8>>) -> Seq<Seq<u8>> {
    Seq::new(ts.len(), |i: int| ts[i]@)
}

/// Exec test for a whitespace byte.
fn is_space_byte(b: u8) -> (r: bool)
    ensures
        r == is_space(b),
{
    b == 32 || b == 9 || b == 10 || b == 11 || b == 12 || b == 13
}

/// Splits a command string into its whitespace-separated tokens: the argv that
/// the build tool is invoked with.
pub fn split_command_tokens(cmd: &[u8]) -> (tokens: Vec<Vec<u8>>)
    ensures
        token_views(tokens@) == split_tokens(cmd@),
{
    let n = cmd.len();
    let mut out: Vec<Vec<u8>> = Vec::new();
    let mut cur: Vec<u8> = Vec::new();
    let mut i: usize = 0;
    proof {
        assert(cmd@.skip(0) =~= cmd@);
        assert(token_views(out@) =~= Seq::<Seq<u8>>::empty());
    }
    while i < n
        invariant
            i <= n,
            n == cmd@.len(),
            split_tokens(cmd@) == token_views(out@) + split_tokens_from(cmd@.skip(i as int), cur@),
        decreases n - i,
    {
        let ghost rest = cmd@.skip(i as int);
        proof {
            assert(rest[0] == cmd@[i as int]);
            assert(rest.skip(1) =~= cmd@.skip(i + 1));
        }
        let b = cmd[i];
        if is_space_byte(b) {
            if cur.len() > 0 {
                let ghost toks = token_views(out@);
                let ghost tok = cur@;
                proof {
                    assert(split_tokens_from(rest, tok) == seq![tok] + split_tokens_from(
                        cmd@.skip(i + 1),
                        Seq::<u8>::empty(),
                    ));
                    assert(toks + (seq![tok] + split_tokens_from(cmd@.skip(i + 1), Seq::<u8>::empty()))
                        =~= (toks + seq![tok]) + split_tokens_from(cmd@.skip(i + 1), Seq::<u8>::empty()));
                }
                out.push(cur);
                proof {
                    assert(token_views(out@) =~= toks + seq![tok]);
                }
                cur = Vec::new();
                proof {
                    assert(split_tokens(cmd@) == token_views(out@) + split_tokens_from(
                        cmd@.skip(i + 1),
                        cur@,
                    ));
                }
            } else {
                proof {
                    assert(cur@ =~= Seq::<u8>::empty());
                    assert(split_tokens_from(rest, cur@) == split_tokens_from(
                        cmd@.skip(i + 1),
                        cur@,
                    ));
                    assert(split_tokens(cmd@) == token_views(out@) + split_tokens_from(
                        cmd@.skip(i + 1),
                        cur@,
                    ));
                }
            }
        } else {
            let ghost cur_old = cur@;
            cur.push(b);
            proof {
                assert(split_tokens_from(rest, cur_old) == split_tokens_from(
                    cmd@.skip(i + 1),
                    cur_old.push(b),
                ));
                assert(cur@ == cur_old.push(b));
                assert(split_tokens(cmd@) == token_views(out@) + split_tokens_from(
                    cmd@.skip(i + 1),
                    cur@,
                ));
            }
        }
        i = i + 1;
    }
    proof {
        assert(cmd@.skip(n as int) =~= Seq::<u8>::empty());
    }
    if cur.len() > 0 {
        let ghost toks = token_views(out@);
        out.push(cur);
        proof {
            assert(token_views(out@) =~= toks.push(cur@));
            assert(toks.push(cur@) =~= toks + seq![cur@]);
        }
    }
    proof {
        assert(token_views(out@) =~= split_tokens(cmd@));
    }
    out
}

/// Why a configuration was rejected.
#[derive(Debug, PartialEq, Eq, Structural)]
pub enum ConfigError {
    /// The repository identifier opens with none of the accepted schemes.
    InvalidRepositoryUrl,
    /// The build command holds no token to invoke.
    EmptyBuildCommand,
}

/// One run's fixed choices: the repository, the build command as argv-style
/// tokens, and the two workspace directories.
#[derive(Debug)]
pub struct RunConfiguration {
    pub repo_url: Vec<u8>,
    pub build_command: Vec<Vec<u8>>,
    pub source_dir: Vec<u8>,
    pub build_dir: Vec<u8>,
}

impl RunConfiguration {
    /// A validated configuration: the repository identifier is acceptable and
    /// there is a command to run.
    pub open spec fn wf(&self) -> bool {
        valid_repo_url(self.repo_url@) && self.build_command@.len() > 0
    }

    /// Validates and builds a configuration. The repository identifier is
    /// rejected unless it opens with an accepted scheme; the command string is
    /// rejected when it holds no token.
    pub fn new(repo_url: Vec<u8>, build_command: &[u8], source_dir: Vec<u8>, build_dir: Vec<u8>)
        -> (r: Result<RunConfiguration, ConfigError>)
        ensures
            r matches Ok(c) ==> {
                &&& c.wf()
                &&& c.repo_url@ == repo_url@
                &&& token_views(c.build_command@) == split_tokens(build_command@)
                &&& c.source_dir@ == source_dir@
                &&& c.build_dir@ == build_dir@
            },
            r == Err::<RunConfiguration, ConfigError>(ConfigError::InvalidRepositoryUrl)
                <==> !valid_repo_url(repo_url@),
            r == Err::<RunConfiguration, ConfigError>(ConfigError::EmptyBuildCommand)
                <==> valid_repo_url(repo_url@) && split_tokens(build_command@).len() == 0,
    {
        if !is_valid_repo_url(repo_url.as_slice()) {
            return Err(ConfigError::InvalidRepositoryUrl);
        }
        let tokens = split_command_tokens(build_command);
        if tokens.len() == 0 {
            proof {
                assert(split_tokens(build_command@).len() == 0);
            }
            return Err(ConfigError::EmptyBuildCommand);
        }
        Ok(RunConfiguration { repo_url, build_command: tokens, source_dir, build_dir })
    }
}

} // verus!
