//! Podman `Secret=` grants: the value written for a grant, and its exact reading.

use vstd::prelude::*;
use crate::encode::{lemma_normalized_secret_mode_stable, normalize_secret_mode, normalized_secret_mode};
use crate::grammar::{
    decimal, decimal_chars, podman_secret_mode, podman_secret_mode_chars, safe_secret_component,
    safe_secret_component_chars,
};
use crate::issue::ValueIssue;
use crate::mount::push_chars;
use crate::text::{chars_of, has_char, join, same_chars, split, split_chars, string_from};

verus! {

broadcast use vstd::string::group_string_axioms;

/// `name=value`.
pub open spec fn assignment(name: Seq<char>, value: Seq<char>) -> Seq<char> {
    name + seq!['='] + value
}

/// The option name `type`.
pub open spec fn type_key() -> Seq<char> {
    seq!['t', 'y', 'p', 'e']
}

/// The option name `target`.
pub open spec fn target_key() -> Seq<char> {
    seq!['t', 'a', 'r', 'g', 'e', 't']
}

/// The option name `uid`.
pub open spec fn uid_key() -> Seq<char> {
    seq!['u', 'i', 'd']
}

/// The option name `gid`.
pub open spec fn gid_key() -> Seq<char> {
    seq!['g', 'i', 'd']
}

/// The option name `mode`.
pub open spec fn mode_key() -> Seq<char> {
    seq!['m', 'o', 'd', 'e']
}

/// The secret type `env`.
pub open spec fn env_type() -> Seq<char> {
    seq!['e', 'n', 'v']
}

/// The secret type `mount`.
pub open spec fn mount_type() -> Seq<char> {
    seq!['m', 'o', 'u', 'n', 't']
}

/// The options of a `Secret=` value read so far.
pub struct SecretOptions {
    pub secret_type: Option<Seq<char>>,
    pub target: Option<Seq<char>>,
    pub uid: Option<Seq<char>>,
    pub gid: Option<Seq<char>>,
    pub mode: Option<Seq<char>>,
}

/// No option read yet.
pub open spec fn no_secret_options() -> SecretOptions {
    SecretOptions { secret_type: None, target: None, uid: None, gid: None, mode: None }
}

/// Whether the option `name` was already read.
pub open spec fn option_seen(st: SecretOptions, name: Seq<char>) -> bool {
    ||| name =~= type_key() && st.secret_type is Some
    ||| name =~= target_key() && st.target is Some
    ||| name =~= uid_key() && st.uid is Some
    ||| name =~= gid_key() && st.gid is Some
    ||| name =~= mode_key() && st.mode is Some
}

/// Reads one `name=value` option of a `Secret=` value: each of `type`, `target`, `uid`, `gid`,
/// and `mode` at most once, each with its own value grammar; any other option is refused.
pub open spec fn secret_option_step(st: SecretOptions, option: Seq<char>) -> Result<SecretOptions, ValueIssue> {
    let parts = split(option, '=');
    let name = parts[0];
    let value = option.skip(name.len() as int + 1);
    if parts.len() == 1 {
        Err(ValueIssue::Invalid("Secret option must use name=value syntax"))
    } else if option_seen(st, name) {
        Err(ValueIssue::Invalid("Secret option is declared more than once"))
    } else if name =~= type_key() {
        if value =~= mount_type() || value =~= env_type() {
            Ok(SecretOptions { secret_type: Some(value), ..st })
        } else {
            Err(ValueIssue::Invalid("Secret type must be mount or env"))
        }
    } else if name =~= target_key() {
        if safe_secret_component(value) {
            Ok(SecretOptions { target: Some(value), ..st })
        } else {
            Err(ValueIssue::Unsupported("secret target requires native quoting or target-specific interpretation"))
        }
    } else if name =~= uid_key() || name =~= gid_key() {
        if !decimal(value) {
            Err(ValueIssue::Invalid("secret UID and GID options require non-negative decimal integers"))
        } else if name =~= uid_key() {
            Ok(SecretOptions { uid: Some(value), ..st })
        } else {
            Ok(SecretOptions { gid: Some(value), ..st })
        }
    } else if name =~= mode_key() {
        if podman_secret_mode(value) {
            Ok(SecretOptions { mode: Some(value), ..st })
        } else {
            Err(ValueIssue::Invalid("secret mode must be a one-to-four-digit octal value no greater than 0777"))
        }
    } else {
        Err(ValueIssue::Unsupported("Secret option is outside the reviewed Podman mount-secret grammar"))
    }
}

/// Reads `options` in order; the first refused option decides the error.
pub open spec fn secret_options_reading(options: Seq<Seq<char>>) -> Result<SecretOptions, ValueIssue>
    decreases options.len(),
{
    if options.len() == 0 {
        Ok(no_secret_options())
    } else {
        match secret_options_reading(options.drop_last()) {
            Err(e) => Err(e),
            Ok(st) => secret_option_step(st, options.last()),
        }
    }
}

/// Mathematical model of a [`DecodedSecretGrant`].
pub struct GrantModel {
    pub source: Seq<char>,
    pub target: Option<Seq<char>>,
    pub uid: Option<Seq<char>>,
    pub gid: Option<Seq<char>>,
    pub mode: Option<Seq<char>>,
    pub has_options: bool,
}

/// The exact reading of a `Secret=` value: a safe secret name, then comma-separated options;
/// an environment-exposed secret is refused.
pub open spec fn secret_grant_reading(value: Seq<char>) -> Result<GrantModel, ValueIssue> {
    let parts = split(value, ',');
    let source = parts[0];
    if !safe_secret_component(source) {
        Err(ValueIssue::Unsupported("secret name requires native quoting or target-specific interpretation"))
    } else {
        match secret_options_reading(parts.skip(1)) {
            Err(e) => Err(e),
            Ok(st) => if st.secret_type == Some(env_type()) {
                Err(
                    ValueIssue::Unsupported(
                        "environment-exposed Podman secrets require a neutral grant exposure field",
                    ),
                )
            } else {
                Ok(
                    GrantModel {
                        source,
                        target: st.target,
                        uid: st.uid,
                        gid: st.gid,
                        mode: st.mode,
                        has_options: parts.len() > 1,
                    },
                )
            },
        }
    }
}

/// A `Secret=` grant read from a native value.
#[derive(Clone, Debug, PartialEq, Eq)]
pub struct DecodedSecretGrant {
    pub source: String,
    pub target: Option<String>,
    pub uid: Option<String>,
    pub gid: Option<String>,
    pub mode: Option<String>,
    pub has_options: bool,
}

/// The view of an optional string.
pub open spec fn string_view(s: Option<String>) -> Option<Seq<char>> {
    match s {
        Some(v) => Some(v@),
        None => None,
    }
}

/// The view of optional characters.
pub open spec fn chars_view(s: Option<Vec<char>>) -> Option<Seq<char>> {
    match s {
        Some(v) => Some(v@),
        None => None,
    }
}

impl View for DecodedSecretGrant {
    type V = GrantModel;

    open spec fn view(&self) -> GrantModel {
        GrantModel {
            source: self.source@,
            target: string_view(self.target),
            uid: string_view(self.uid),
            gid: string_view(self.gid),
            mode: string_view(self.mode),
            has_options: self.has_options,
        }
    }
}

proof fn lemma_reading_error_persists(options: Seq<Seq<char>>, j: int, e: ValueIssue)
    requires
        0 <= j <= options.len(),
        secret_options_reading(options.take(j)) == Err::<SecretOptions, ValueIssue>(e),
    ensures
        secret_options_reading(options) == Err::<SecretOptions, ValueIssue>(e),
    decreases options.len() - j,
{
    if j < options.len() {
        assert(options.take(j + 1).drop_last() =~= options.take(j));
        lemma_reading_error_persists(options, j + 1, e);
    } else {
        assert(options.take(j) =~= options);
    }
}

fn string_option(s: &Option<Vec<char>>) -> (out: Option<String>)
    ensures
        string_view(out) == chars_view(*s),
{
    match s {
        Some(v) => Some(string_from(v.as_slice())),
        None => None,
    }
}

fn copy_chars(s: &[char]) -> (out: Vec<char>)
    ensures
        out@ == s@,
{
    let mut out: Vec<char> = Vec::new();
    push_chars(&mut out, s);
    out
}

/// Reads a `Secret=` value: the secret name, then its `type`, `target`, `uid`, `gid`, and `mode`
/// options.
pub fn decode_secret_grant(value: &str) -> (grant: Result<DecodedSecretGrant, ValueIssue>)
    ensures
        match grant {
            Ok(g) => secret_grant_reading(value@) == Ok::<GrantModel, ValueIssue>(g@),
            Err(e) => secret_grant_reading(value@) == Err::<GrantModel, ValueIssue>(e),
        },
{
    let s = chars_of(value);
    let parts = split_chars(s.as_slice(), ',');
    let ghost all = split(s@, ',');
    proof {
        crate::text::lemma_split_nonempty(s@, ',');
    }
    let source = parts[0].as_slice();
    if !safe_secret_component_chars(source) {
        return Err(ValueIssue::Unsupported("secret name requires native quoting or target-specific interpretation"));
    }
    let n_type = vec!['t', 'y', 'p', 'e'];
    let n_target = vec!['t', 'a', 'r', 'g', 'e', 't'];
    let n_uid = vec!['u', 'i', 'd'];
    let n_gid = vec!['g', 'i', 'd'];
    let n_mode = vec!['m', 'o', 'd', 'e'];
    let t_mount = vec!['m', 'o', 'u', 'n', 't'];
    let t_env = vec!['e', 'n', 'v'];
    assert(n_type@ =~= type_key() && n_target@ =~= target_key() && n_uid@ =~= uid_key() && n_gid@ =~= gid_key()
        && n_mode@ =~= mode_key() && t_mount@ =~= mount_type() && t_env@ =~= env_type());
    let mut secret_type: Option<Vec<char>> = None;
    let mut target: Option<Vec<char>> = None;
    let mut uid: Option<Vec<char>> = None;
    let mut gid: Option<Vec<char>> = None;
    let mut mode: Option<Vec<char>> = None;
    let ghost options = all.skip(1);
    let mut k: usize = 1;
    assert(options.take(0) =~= Seq::<Seq<char>>::empty());
    while k < parts.len()
        invariant
            1 <= k <= parts@.len(),
            s@ == value@,
            all == split(s@, ','),
            options == all.skip(1),
            safe_secret_component(all[0]),
            parts@.len() == all.len(),
            forall|j: int| 0 <= j < parts@.len() ==> #[trigger] parts@[j]@ == all[j],
            n_type@ == type_key() && n_target@ == target_key() && n_uid@ == uid_key() && n_gid@ == gid_key()
                && n_mode@ == mode_key() && t_mount@ == mount_type() && t_env@ == env_type(),
            secret_options_reading(options.take(k - 1)) == Ok::<SecretOptions, ValueIssue>(
                SecretOptions {
                    secret_type: chars_view(secret_type),
                    target: chars_view(target),
                    uid: chars_view(uid),
                    gid: chars_view(gid),
                    mode: chars_view(mode),
                },
            ),
        decreases parts@.len() - k,
    {
        let ghost st = SecretOptions {
            secret_type: chars_view(secret_type),
            target: chars_view(target),
            uid: chars_view(uid),
            gid: chars_view(gid),
            mode: chars_view(mode),
        };
        let option = parts[k].as_slice();
        proof {
            assert(options.take(k as int).drop_last() =~= options.take(k - 1));
            assert(options.take(k as int).last() == option@);
        }
        let eq_parts = split_chars(option, '=');
        proof {
            crate::grammar::lemma_first_segment_len(option@, '=');
        }
        if eq_parts.len() == 1 {
            proof {
                lemma_reading_error_persists(options, k as int, ValueIssue::Invalid("Secret option must use name=value syntax"));
            }
            return Err(ValueIssue::Invalid("Secret option must use name=value syntax"));
        }
        let name = eq_parts[0].as_slice();
        let rest = &option[name.len() + 1..option.len()];
        assert(rest@ =~= option@.skip(name@.len() as int + 1));
        let is_type = same_chars(name, n_type.as_slice());
        let is_target = same_chars(name, n_target.as_slice());
        let is_uid = same_chars(name, n_uid.as_slice());
        let is_gid = same_chars(name, n_gid.as_slice());
        let is_mode = same_chars(name, n_mode.as_slice());
        if (is_type && secret_type.is_some()) || (is_target && target.is_some()) || (is_uid && uid.is_some()) || (
        is_gid && gid.is_some()) || (is_mode && mode.is_some()) {
            proof {
                assert(option_seen(st, name@));
                lemma_reading_error_persists(options, k as int, ValueIssue::Invalid("Secret option is declared more than once"));
            }
            return Err(ValueIssue::Invalid("Secret option is declared more than once"));
        }
        assert(!option_seen(st, name@));
        if is_type {
            if same_chars(rest, t_mount.as_slice()) || same_chars(rest, t_env.as_slice()) {
                secret_type = Some(copy_chars(rest));
            } else {
                proof {
                    lemma_reading_error_persists(options, k as int, ValueIssue::Invalid("Secret type must be mount or env"));
                }
                return Err(ValueIssue::Invalid("Secret type must be mount or env"));
            }
        } else if is_target {
            if safe_secret_component_chars(rest) {
                target = Some(copy_chars(rest));
            } else {
                proof {
                    lemma_reading_error_persists(
                        options,
                        k as int,
                        ValueIssue::Unsupported("secret target requires native quoting or target-specific interpretation"),
                    );
                }
                return Err(
                    ValueIssue::Unsupported("secret target requires native quoting or target-specific interpretation"),
                );
            }
        } else if is_uid || is_gid {
            if !decimal_chars(rest) {
                proof {
                    lemma_reading_error_persists(
                        options,
                        k as int,
                        ValueIssue::Invalid("secret UID and GID options require non-negative decimal integers"),
                    );
                }
                return Err(ValueIssue::Invalid("secret UID and GID options require non-negative decimal integers"));
            } else if is_uid {
                uid = Some(copy_chars(rest));
            } else {
                gid = Some(copy_chars(rest));
            }
        } else if is_mode {
            if podman_secret_mode_chars(rest) {
                mode = Some(copy_chars(rest));
            } else {
                proof {
                    lemma_reading_error_persists(
                        options,
                        k as int,
                        ValueIssue::Invalid("secret mode must be a one-to-four-digit octal value no greater than 0777"),
                    );
                }
                return Err(
                    ValueIssue::Invalid("secret mode must be a one-to-four-digit octal value no greater than 0777"),
                );
            }
        } else {
            proof {
                lemma_reading_error_persists(
                    options,
                    k as int,
                    ValueIssue::Unsupported("Secret option is outside the reviewed Podman mount-secret grammar"),
                );
            }
            return Err(ValueIssue::Unsupported("Secret option is outside the reviewed Podman mount-secret grammar"));
        }
        k += 1;
    }
    assert(options.take(parts@.len() - 1) =~= options);
    let is_env = match &secret_type {
        Some(t) => same_chars(t.as_slice(), t_env.as_slice()),
        None => false,
    };
    if is_env {
        return Err(
            ValueIssue::Unsupported("environment-exposed Podman secrets require a neutral grant exposure field"),
        );
    }
    Ok(
        DecodedSecretGrant {
            source: string_from(source),
            target: string_option(&target),
            uid: string_option(&uid),
            gid: string_option(&gid),
            mode: string_option(&mode),
            has_options: parts.len() > 1,
        },
    )
}


// ---------------------------------------------------------------------------------------------
// Writing a grant
// ---------------------------------------------------------------------------------------------

/// The fields of a neutral secret grant that a `Secret=` value writes.
pub struct GrantFields {
    pub target: Option<Seq<char>>,
    pub uid: Option<Seq<char>>,
    pub gid: Option<Seq<char>>,
    pub mode: Option<Seq<char>>,
}

/// A neutral secret grant: where the secret is mounted and with which owner and mode.
#[derive(Clone, Debug, PartialEq, Eq)]
pub struct SecretGrant {
    pub target: Option<String>,
    pub uid: Option<String>,
    pub gid: Option<String>,
    pub mode: Option<String>,
}

impl View for SecretGrant {
    type V = GrantFields;

    open spec fn view(&self) -> GrantFields {
        GrantFields {
            target: string_view(self.target),
            uid: string_view(self.uid),
            gid: string_view(self.gid),
            mode: string_view(self.mode),
        }
    }
}

/// `[name=value]` when `value` is present, else nothing.
pub open spec fn optional_assignment(name: Seq<char>, value: Option<Seq<char>>) -> Seq<Seq<char>> {
    match value {
        Some(v) => seq![assignment(name, v)],
        None => Seq::empty(),
    }
}

/// The target written for a grant: its own target, or the neutral secret name when the runtime
/// name differs from it, or none.
pub open spec fn written_target(grant: GrantFields, runtime_name: Seq<char>, source: Seq<char>) -> Option<Seq<char>> {
    match grant.target {
        Some(t) => Some(t),
        None => if runtime_name != source {
            Some(source)
        } else {
            None
        },
    }
}

/// The mode written for a grant: its canonical form.
pub open spec fn written_mode(grant: GrantFields) -> Option<Seq<char>> {
    match grant.mode {
        Some(m) => normalized_secret_mode(m),
        None => None,
    }
}

/// The `Secret=` options written for a grant mounted from the runtime secret `runtime_name` of the
/// neutral secret `source`, in `target`, `uid`, `gid`, `mode` order, or why they cannot be written.
pub open spec fn secret_options_text(grant: GrantFields, runtime_name: Seq<char>, source: Seq<char>) -> Result<
    Seq<Seq<char>>,
    &'static str,
> {
    if grant.target is Some && !safe_secret_component(grant.target->Some_0) {
        Err("secret target cannot be encoded in the reviewed Quadlet Secret grammar")
    } else if (grant.uid is Some && !decimal(grant.uid->Some_0)) || (grant.gid is Some && !decimal(
        grant.gid->Some_0,
    )) {
        Err("secret UID and GID options require non-negative decimal integers")
    } else if grant.mode is Some && normalized_secret_mode(grant.mode->Some_0) is None {
        Err("secret mode must be a one-to-four-digit octal value without writable bits")
    } else {
        Ok(
            optional_assignment(target_key(), written_target(grant, runtime_name, source))
                + optional_assignment(uid_key(), grant.uid) + optional_assignment(gid_key(), grant.gid)
                + optional_assignment(mode_key(), written_mode(grant)),
        )
    }
}

fn assignment_text(name: &[char], value: &[char]) -> (text: String)
    ensures
        text@ == assignment(name@, value@),
{
    let mut out: Vec<char> = Vec::new();
    push_chars(&mut out, name);
    out.push('=');
    push_chars(&mut out, value);
    assert(out@ =~= assignment(name@, value@));
    string_from(out.as_slice())
}

/// The `Secret=` options for a grant, or why the grant cannot be written exactly.
pub fn podman_secret_options(grant: &SecretGrant, runtime_name: &str, source: &str) -> (options: Result<
    Vec<String>,
    &'static str,
>)
    ensures
        match options {
            Ok(o) => secret_options_text(grant@, runtime_name@, source@) == Ok::<Seq<Seq<char>>, &'static str>(
                o@.map_values(|t: String| t@),
            ),
            Err(e) => secret_options_text(grant@, runtime_name@, source@) == Err::<Seq<Seq<char>>, &'static str>(e),
        },
{
    let n_target = vec!['t', 'a', 'r', 'g', 'e', 't'];
    let n_uid = vec!['u', 'i', 'd'];
    let n_gid = vec!['g', 'i', 'd'];
    let n_mode = vec!['m', 'o', 'd', 'e'];
    assert(n_target@ =~= target_key() && n_uid@ =~= uid_key() && n_gid@ =~= gid_key() && n_mode@ =~= mode_key());
    let mut options: Vec<String> = Vec::new();
    match &grant.target {
        Some(target) => {
            let t = chars_of(target.as_str());
            if !safe_secret_component_chars(t.as_slice()) {
                return Err("secret target cannot be encoded in the reviewed Quadlet Secret grammar");
            }
            options.push(assignment_text(n_target.as_slice(), t.as_slice()));
        },
        None => {
            let r = chars_of(runtime_name);
            let src = chars_of(source);
            if !same_chars(r.as_slice(), src.as_slice()) {
                options.push(assignment_text(n_target.as_slice(), src.as_slice()));
            }
        },
    }
    let ghost after_target = options@.map_values(|t: String| t@);
    assert(after_target =~= optional_assignment(target_key(), written_target(grant@, runtime_name@, source@)));
    if let Some(uid) = &grant.uid {
        let u = chars_of(uid.as_str());
        if !decimal_chars(u.as_slice()) {
            return Err("secret UID and GID options require non-negative decimal integers");
        }
        options.push(assignment_text(n_uid.as_slice(), u.as_slice()));
    }
    if let Some(gid) = &grant.gid {
        let g = chars_of(gid.as_str());
        if !decimal_chars(g.as_slice()) {
            return Err("secret UID and GID options require non-negative decimal integers");
        }
        options.push(assignment_text(n_gid.as_slice(), g.as_slice()));
    }
    let ghost after_ids = options@.map_values(|t: String| t@);
    assert(after_ids =~= after_target + optional_assignment(uid_key(), grant@.uid) + optional_assignment(
        gid_key(),
        grant@.gid,
    ));
    if let Some(mode) = &grant.mode {
        match normalize_secret_mode(mode.as_str()) {
            Some(m) => {
                let mc = chars_of(m.as_str());
                options.push(assignment_text(n_mode.as_slice(), mc.as_slice()));
            },
            None => {
                return Err("secret mode must be a one-to-four-digit octal value without writable bits");
            },
        }
    }
    assert(options@.map_values(|t: String| t@) =~= after_ids + optional_assignment(mode_key(), written_mode(grant@)));
    Ok(options)
}

/// The `Secret=` value: the runtime secret name, then its options, separated by commas.
pub open spec fn secret_entry_text(runtime_name: Seq<char>, options: Seq<Seq<char>>) -> Seq<char> {
    join(seq![runtime_name] + options, ',')
}

/// The `Secret=` value written for a grant, or why the grant cannot be written exactly.
pub fn podman_secret_entry(grant: &SecretGrant, runtime_name: &str, source: &str) -> (entry: Result<
    String,
    &'static str,
>)
    ensures
        match entry {
            Ok(e) => secret_options_text(grant@, runtime_name@, source@) is Ok && e@ == secret_entry_text(
                runtime_name@,
                secret_options_text(grant@, runtime_name@, source@)->Ok_0,
            ),
            Err(e) => secret_options_text(grant@, runtime_name@, source@) == Err::<Seq<Seq<char>>, &'static str>(e),
        },
{
    let options = match podman_secret_options(grant, runtime_name, source) {
        Ok(options) => options,
        Err(e) => {
            return Err(e);
        },
    };
    let ghost views = options@.map_values(|t: String| t@);
    let mut out: Vec<char> = Vec::new();
    push_chars(&mut out, chars_of(runtime_name).as_slice());
    let ghost all = seq![runtime_name@] + views;
    assert(all.take(1) =~= seq![runtime_name@]);
    assert(out@ == join(all.take(1), ','));
    let mut k: usize = 0;
    while k < options.len()
        invariant
            k <= options@.len(),
            views == options@.map_values(|t: String| t@),
            all == seq![runtime_name@] + views,
            out@ == join(all.take(k + 1), ','),
        decreases options@.len() - k,
    {
        out.push(',');
        push_chars(&mut out, chars_of(options[k].as_str()).as_slice());
        proof {
            let next = all.take(k + 2);
            assert(next.drop_last() =~= all.take(k + 1));
            assert(next.last() == options@[k as int]@);
            assert(next.len() >= 2);
        }
        k += 1;
    }
    assert(all.take(options@.len() as int + 1) =~= all);
    Ok(string_from(out.as_slice()))
}


// ---------------------------------------------------------------------------------------------
// What is written reads back
// ---------------------------------------------------------------------------------------------

proof fn lemma_assignment_parts(name: Seq<char>, value: Seq<char>)
    requires
        !has_char(name, '='),
        !has_char(value, '='),
    ensures
        split(assignment(name, value), '=').len() > 1,
        split(assignment(name, value), '=')[0] == name,
        assignment(name, value).skip(name.len() as int + 1) == value,
{
    crate::text::lemma_split_concat(name, value, '=');
    crate::text::lemma_split_single(name, '=');
    crate::text::lemma_split_nonempty(value, '=');
    assert(assignment(name, value).skip(name.len() as int + 1) =~= value);
}

proof fn lemma_assignment_no_comma(name: Seq<char>, value: Seq<char>)
    requires
        !has_char(name, ','),
        !has_char(value, ','),
    ensures
        !has_char(assignment(name, value), ','),
{
    let a = assignment(name, value);
    if has_char(a, ',') {
        let i = choose|i: int| 0 <= i < a.len() && a[i] == ',';
        if i < name.len() {
            assert(name[i] == ',');
        } else if i > name.len() {
            assert(value[i - name.len() - 1] == ',');
        }
    }
}

proof fn lemma_digits_plain(v: Seq<char>)
    requires
        forall|i: int| 0 <= i < v.len() ==> '0' <= #[trigger] v[i] <= '9',
    ensures
        !has_char(v, ','),
        !has_char(v, '='),
{
    if has_char(v, ',') || has_char(v, '=') {
        let i = choose|i: int| 0 <= i < v.len() && (v[i] == ',' || v[i] == '=');
        assert('0' <= v[i] <= '9');
    }
}

proof fn lemma_keys_plain()
    ensures
        !has_char(target_key(), ',') && !has_char(target_key(), '='),
        !has_char(uid_key(), ',') && !has_char(uid_key(), '='),
        !has_char(gid_key(), ',') && !has_char(gid_key(), '='),
        !has_char(mode_key(), ',') && !has_char(mode_key(), '='),
        target_key() != type_key() && target_key() != uid_key() && target_key() != gid_key() && target_key()
            != mode_key(),
        uid_key() != type_key() && uid_key() != gid_key() && uid_key() != mode_key(),
        gid_key() != type_key() && gid_key() != mode_key(),
        mode_key() != type_key(),
{
    let (t, u, g, m) = (target_key(), uid_key(), gid_key(), mode_key());
    assert(t.len() == 6 && u.len() == 3 && g.len() == 3 && m.len() == 4 && type_key().len() == 4);
    assert(u[0] != g[0]);
    assert(m[0] != type_key()[0]);
    assert(!has_char(t, ',') && !has_char(t, '=')) by {
        assert(t[0] == 't' && t[1] == 'a' && t[2] == 'r' && t[3] == 'g' && t[4] == 'e' && t[5] == 't');
    }
    assert(!has_char(u, ',') && !has_char(u, '=')) by {
        assert(u[0] == 'u' && u[1] == 'i' && u[2] == 'd');
    }
    assert(!has_char(g, ',') && !has_char(g, '=')) by {
        assert(g[0] == 'g' && g[1] == 'i' && g[2] == 'd');
    }
    assert(!has_char(m, ',') && !has_char(m, '=')) by {
        assert(m[0] == 'm' && m[1] == 'o' && m[2] == 'd' && m[3] == 'e');
    }
}

proof fn lemma_reading_append(xs: Seq<Seq<char>>, ys: Seq<Seq<char>>, st: SecretOptions, next: SecretOptions)
    requires
        secret_options_reading(xs) == Ok::<SecretOptions, ValueIssue>(st),
        ys.len() <= 1,
        ys.len() == 1 ==> secret_option_step(st, ys[0]) == Ok::<SecretOptions, ValueIssue>(next),
        ys.len() == 0 ==> next == st,
    ensures
        secret_options_reading(xs + ys) == Ok::<SecretOptions, ValueIssue>(next),
{
    if ys.len() == 0 {
        assert(xs + ys =~= xs);
    } else {
        assert((xs + ys).drop_last() =~= xs);
        assert((xs + ys).last() == ys[0]);
    }
}

/// What the exporter writes for a grant, the importer reads back: the runtime secret name, the
/// written target, the same owner ids, and the canonical mode.
pub proof fn lemma_secret_entry_reads_back(grant: GrantFields, runtime_name: Seq<char>, source: Seq<char>)
    requires
        safe_secret_component(runtime_name),
        secret_options_text(grant, runtime_name, source) is Ok,
        grant.target is None && runtime_name != source ==> safe_secret_component(source),
    ensures
        secret_grant_reading(secret_entry_text(runtime_name, secret_options_text(grant, runtime_name, source)->Ok_0))
            == Ok::<GrantModel, ValueIssue>(
            GrantModel {
                source: runtime_name,
                target: written_target(grant, runtime_name, source),
                uid: grant.uid,
                gid: grant.gid,
                mode: written_mode(grant),
                has_options: secret_options_text(grant, runtime_name, source)->Ok_0.len() > 0,
            },
        ),
{
    lemma_keys_plain();
    let target = written_target(grant, runtime_name, source);
    let mode = written_mode(grant);
    let a = optional_assignment(target_key(), target);
    let b = optional_assignment(uid_key(), grant.uid);
    let c = optional_assignment(gid_key(), grant.gid);
    let d = optional_assignment(mode_key(), mode);
    let options = secret_options_text(grant, runtime_name, source)->Ok_0;
    assert(options == a + b + c + d);
    // The values carry neither `,` nor `=`.
    if let Some(t) = target {
        assert(safe_secret_component(t));
        lemma_assignment_parts(target_key(), t);
        lemma_assignment_no_comma(target_key(), t);
    }
    if let Some(u) = grant.uid {
        lemma_digits_plain(u);
        lemma_assignment_parts(uid_key(), u);
        lemma_assignment_no_comma(uid_key(), u);
    }
    if let Some(g) = grant.gid {
        lemma_digits_plain(g);
        lemma_assignment_parts(gid_key(), g);
        lemma_assignment_no_comma(gid_key(), g);
    }
    if let Some(m) = mode {
        lemma_normalized_secret_mode_stable(grant.mode->Some_0);
        assert(podman_secret_mode(m));
        lemma_digits_plain(m);
        lemma_assignment_parts(mode_key(), m);
        lemma_assignment_no_comma(mode_key(), m);
    }
    // Splitting the entry at commas gives the runtime name, then the options.
    let parts = seq![runtime_name] + options;
    assert forall|k: int| 0 <= k < parts.len() implies !has_char(#[trigger] parts[k], ',') by {
        if k > 0 {
            let o = options[k - 1];
            assert(parts[k] == o);
            if k - 1 < a.len() {
                assert(o == a[k - 1]);
            } else if k - 1 < a.len() + b.len() {
                assert(o == b[k - 1 - a.len()]);
            } else if k - 1 < a.len() + b.len() + c.len() {
                assert(o == c[k - 1 - a.len() - b.len()]);
            } else {
                assert(o == d[k - 1 - a.len() - b.len() - c.len()]);
            }
        }
    }
    crate::text::lemma_split_join(parts, ',');
    assert(parts.skip(1) =~= options);
    // The options read back one at a time.
    let st0 = no_secret_options();
    let st1 = SecretOptions { target, ..st0 };
    let st2 = SecretOptions { uid: grant.uid, ..st1 };
    let st3 = SecretOptions { gid: grant.gid, ..st2 };
    let st4 = SecretOptions { mode, ..st3 };
    assert(secret_options_reading(Seq::<Seq<char>>::empty()) == Ok::<SecretOptions, ValueIssue>(st0));
    lemma_reading_append(Seq::<Seq<char>>::empty(), a, st0, st1);
    assert(Seq::<Seq<char>>::empty() + a =~= a);
    lemma_reading_append(a, b, st1, st2);
    lemma_reading_append(a + b, c, st2, st3);
    lemma_reading_append(a + b + c, d, st3, st4);
}

} // verus!
