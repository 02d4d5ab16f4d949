//! The command line of the external data source: its arguments for a query
//! and the form of them that is safe to log.

use crate::fingerprint::texts;
use vstd::prelude::*;

verus! {

/// What the pipeline is configured with: the external command and the
/// credentials that it is called with. An empty credential is left out of
/// the command line.
pub struct Config {
    pub openstack_command: String,
    pub os_auth_url: String,
    pub os_username: String,
    pub os_password: String,
    pub os_project_id: String,
    pub os_region_name: String,
    pub os_user_domain_name: String,
}

/// The text that stands in for a hidden argument.
pub open spec fn redaction_mark() -> Seq<char> {
    "[REDACTED]"@
}

/// Whether the argument after `arg` is a secret.
pub open spec fn is_sensitive_flag(arg: Seq<char>) -> bool {
    arg == "--os-password"@ || arg == "--os-project-id"@
}

/// A command line that is safe to show: each argument that follows a
/// sensitive flag is replaced by the redaction mark.
///
/// The argument after a sensitive flag is that flag's value, whatever it
/// holds, so it never counts as a flag itself.
pub open spec fn redacted(args: Seq<Seq<char>>) -> Seq<Seq<char>>
    decreases args.len(),
{
    if args.len() == 0 {
        Seq::empty()
    } else if is_sensitive_flag(args[0]) && args.len() >= 2 {
        seq![args[0], redaction_mark()] + redacted(args.skip(2))
    } else {
        seq![args[0]] + redacted(args.skip(1))
    }
}

/// The arguments that pass one credential: the flag and the value, or
/// nothing where the value is empty.
pub open spec fn credential_args(flag: Seq<char>, value: Seq<char>) -> Seq<Seq<char>> {
    if value.len() == 0 {
        Seq::empty()
    } else {
        seq![flag, value]
    }
}

/// The arguments that ask for the rated resources between two stamps, as
/// JSON.
pub open spec fn rating_args(begin: Seq<char>, end: Seq<char>) -> Seq<Seq<char>> {
    seq![
        "rating"@,
        "dataframes"@,
        "get"@,
        "-b"@,
        begin,
        "-e"@,
        end,
        "-c"@,
        "Resources"@,
        "-f"@,
        "json"@,
    ]
}

/// The command line for the given credentials and stamps: the credentials
/// that are set, in a fixed order, then the query.
pub open spec fn command_line(
    auth_url: Seq<char>,
    username: Seq<char>,
    password: Seq<char>,
    project_id: Seq<char>,
    region_name: Seq<char>,
    user_domain_name: Seq<char>,
    begin: Seq<char>,
    end: Seq<char>,
) -> Seq<Seq<char>> {
    credential_args("--os-auth-url"@, auth_url) + credential_args("--os-username"@, username)
        + credential_args("--os-password"@, password) + credential_args(
        "--os-project-id"@,
        project_id,
    ) + credential_args("--os-region-name"@, region_name) + credential_args(
        "--os-user-domain-name"@,
        user_domain_name,
    ) + rating_args(begin, end)
}

/// The arguments of the external command for a configuration.
pub open spec fn query_args(config: Config, begin: Seq<char>, end: Seq<char>) -> Seq<Seq<char>> {
    command_line(
        config.os_auth_url@,
        config.os_username@,
        config.os_password@,
        config.os_project_id@,
        config.os_region_name@,
        config.os_user_domain_name@,
        begin,
        end,
    )
}

/// A secret as a log shows it: the redaction mark, unless the secret is not
/// set.
pub open spec fn masked(secret: Seq<char>) -> Seq<char> {
    if secret.len() == 0 {
        secret
    } else {
        redaction_mark()
    }
}

/// Appends one argument.
fn push_arg(args: &mut Vec<String>, arg: String)
    ensures
        texts(final(args)@) == texts(old(args)@).push(arg@),
{
    args.push(arg);
    assert(texts(args@) =~= texts(old(args)@).push(arg@));
}

/// Appends a credential's flag and value, unless the value is empty.
fn push_credential(args: &mut Vec<String>, flag: &str, value: &String)
    ensures
        texts(final(args)@) == texts(old(args)@) + credential_args(flag@, value@),
{
    if !value.as_str().is_empty() {
        push_arg(args, flag.to_owned());
        push_arg(args, value.clone());
        assert(texts(args@) =~= texts(old(args)@) + credential_args(flag@, value@));
    } else {
        assert(texts(args@) =~= texts(old(args)@) + credential_args(flag@, value@));
    }
}

/// Builds the arguments of the external command for the query between the
/// stamps `begin` and `end`.
pub fn build_args(config: &Config, begin: String, end: String) -> (args: Vec<String>)
    ensures
        texts(args@) == query_args(*config, begin@, end@),
{
    let mut args: Vec<String> = Vec::new();
    assert(texts(args@) =~= Seq::<Seq<char>>::empty());
    push_credential(&mut args, "--os-auth-url", &config.os_auth_url);
    push_credential(&mut args, "--os-username", &config.os_username);
    push_credential(&mut args, "--os-password", &config.os_password);
    push_credential(&mut args, "--os-project-id", &config.os_project_id);
    push_credential(&mut args, "--os-region-name", &config.os_region_name);
    push_credential(&mut args, "--os-user-domain-name", &config.os_user_domain_name);
    let ghost credentials = texts(args@);
    push_arg(&mut args, "rating".to_owned());
    push_arg(&mut args, "dataframes".to_owned());
    push_arg(&mut args, "get".to_owned());
    push_arg(&mut args, "-b".to_owned());
    push_arg(&mut args, begin);
    push_arg(&mut args, "-e".to_owned());
    push_arg(&mut args, end);
    push_arg(&mut args, "-c".to_owned());
    push_arg(&mut args, "Resources".to_owned());
    push_arg(&mut args, "-f".to_owned());
    push_arg(&mut args, "json".to_owned());
    assert(texts(args@) =~= credentials + rating_args(begin@, end@));
    args
}

/// Makes a copy of a command line that is safe to log: the values of the
/// password and of the project id are replaced by `[REDACTED]`.
pub fn redact_sensitive_args(args: &[String]) -> (shown: Vec<String>)
    ensures
        texts(shown@) == redacted(texts(args@)),
{
    let password_flag = "--os-password".to_owned();
    let project_flag = "--os-project-id".to_owned();
    let ghost all = texts(args@);
    let mut shown: Vec<String> = Vec::new();
    let mut i: usize = 0;
    assert(all.skip(0) =~= all);
    assert(texts(shown@) + redacted(all.skip(0)) =~= redacted(all));
    while i < args.len()
        invariant
            i <= args@.len(),
            all == texts(args@),
            password_flag@ == "--os-password"@,
            project_flag@ == "--os-project-id"@,
            texts(shown@) + redacted(all.skip(i as int)) == redacted(all),
        decreases args@.len() - i,
    {
        let arg = &args[i];
        let ghost rest = all.skip(i as int);
        let ghost done = texts(shown@);
        assert(rest.len() == args@.len() - i);
        assert(rest[0] == arg@);
        if *arg == password_flag || *arg == project_flag {
            push_arg(&mut shown, arg.clone());
            if i + 1 < args.len() {
                push_arg(&mut shown, "[REDACTED]".to_owned());
                assert(rest.skip(2) =~= all.skip(i + 2));
                assert(texts(shown@) + redacted(all.skip(i + 2)) =~= done + redacted(rest));
                i += 1;
            } else {
                assert(rest.skip(1) =~= all.skip(i + 1));
                assert(texts(shown@) + redacted(all.skip(i + 1)) =~= done + redacted(rest));
            }
        } else {
            push_arg(&mut shown, arg.clone());
            assert(rest.skip(1) =~= all.skip(i + 1));
            assert(texts(shown@) + redacted(all.skip(i + 1)) =~= done + redacted(rest));
        }
        i += 1;
    }
    assert(all.skip(args@.len() as int) =~= Seq::<Seq<char>>::empty());
    assert(texts(shown@) + Seq::<Seq<char>>::empty() =~= texts(shown@));
    shown
}

/// Arguments of which none is a sensitive flag pass redaction unchanged.
proof fn lemma_redaction_keeps_plain_args(plain: Seq<Seq<char>>, rest: Seq<Seq<char>>)
    requires
        forall|i: int| 0 <= i < plain.len() ==> !is_sensitive_flag(#[trigger] plain[i]),
    ensures
        redacted(plain + rest) == plain + redacted(rest),
    decreases plain.len(),
{
    if plain.len() == 0 {
        assert(plain + rest =~= rest);
        assert(plain + redacted(rest) =~= redacted(rest));
    } else {
        let whole = plain + rest;
        assert(whole[0] == plain[0]);
        assert(whole.skip(1) =~= plain.skip(1) + rest);
        assert forall|i: int| 0 <= i < plain.skip(1).len() implies !is_sensitive_flag(
            #[trigger] plain.skip(1)[i],
        ) by {
            assert(plain.skip(1)[i] == plain[i + 1]);
        }
        lemma_redaction_keeps_plain_args(plain.skip(1), rest);
        assert(seq![plain[0]] + (plain.skip(1) + redacted(rest)) =~= plain + redacted(rest));
    }
}

/// A secret credential passes redaction with its value masked.
proof fn lemma_redaction_masks_secret(flag: Seq<char>, secret: Seq<char>, rest: Seq<Seq<char>>)
    requires
        is_sensitive_flag(flag),
    ensures
        redacted(credential_args(flag, secret) + rest) == credential_args(flag, masked(secret))
            + redacted(rest),
{
    reveal_strlit("[REDACTED]");
    if secret.len() == 0 {
        assert(credential_args(flag, secret) + rest =~= rest);
        assert(credential_args(flag, masked(secret)) + redacted(rest) =~= redacted(rest));
    } else {
        let whole = credential_args(flag, secret) + rest;
        assert(whole[0] == flag);
        assert(whole.skip(2) =~= rest);
        assert(masked(secret).len() > 0);
        assert(seq![flag, redaction_mark()] + redacted(rest) =~= credential_args(
            flag,
            masked(secret),
        ) + redacted(rest));
    }
}

/// A credential that is no secret passes redaction unchanged.
proof fn lemma_redaction_keeps_credential(flag: Seq<char>, value: Seq<char>, rest: Seq<Seq<char>>)
    requires
        !is_sensitive_flag(flag),
        !is_sensitive_flag(value),
    ensures
        redacted(credential_args(flag, value) + rest) == credential_args(flag, value) + redacted(
            rest,
        ),
{
    lemma_redaction_keeps_plain_args(credential_args(flag, value), rest);
}

/// None of the fixed words of a command line is a sensitive flag but the two
/// that are meant to be.
proof fn lemma_fixed_words()
    ensures
        !is_sensitive_flag("--os-auth-url"@),
        !is_sensitive_flag("--os-username"@),
        !is_sensitive_flag("--os-region-name"@),
        !is_sensitive_flag("--os-user-domain-name"@),
        !is_sensitive_flag("rating"@),
        !is_sensitive_flag("dataframes"@),
        !is_sensitive_flag("get"@),
        !is_sensitive_flag("-b"@),
        !is_sensitive_flag("-e"@),
        !is_sensitive_flag("-c"@),
        !is_sensitive_flag("Resources"@),
        !is_sensitive_flag("-f"@),
        !is_sensitive_flag("json"@),
{
    reveal_strlit("--os-password");
    reveal_strlit("--os-project-id");
    reveal_strlit("--os-auth-url");
    reveal_strlit("--os-username");
    reveal_strlit("--os-region-name");
    reveal_strlit("--os-user-domain-name");
    reveal_strlit("rating");
    reveal_strlit("dataframes");
    reveal_strlit("get");
    reveal_strlit("-b");
    reveal_strlit("-e");
    reveal_strlit("-c");
    reveal_strlit("Resources");
    reveal_strlit("-f");
    reveal_strlit("json");
    assert("--os-password"@.len() == 13 && "--os-project-id"@.len() == 15);
    assert("--os-auth-url"@[5] != "--os-password"@[5]);
    assert("--os-username"@[5] != "--os-password"@[5]);
    assert("--os-region-name"@.len() == 16);
    assert("--os-user-domain-name"@.len() == 21);
    assert("rating"@.len() == 6);
    assert("dataframes"@.len() == 10);
    assert("get"@.len() == 3);
    assert("-b"@.len() == 2 && "-e"@.len() == 2 && "-c"@.len() == 2 && "-f"@.len() == 2);
    assert("Resources"@.len() == 9);
    assert("json"@.len() == 4);
}

/// What a log shows of a command line hides the secrets: the redacted form
/// of a command line is the command line of the same credentials with the
/// password and the project id masked, whatever they are.
///
/// This holds where no other credential and neither stamp is itself the text
/// of a sensitive flag: such a value would pass for the flag.
pub proof fn law_redaction_hides_the_secrets(
    auth_url: Seq<char>,
    username: Seq<char>,
    password: Seq<char>,
    project_id: Seq<char>,
    region_name: Seq<char>,
    user_domain_name: Seq<char>,
    begin: Seq<char>,
    end: Seq<char>,
)
    requires
        !is_sensitive_flag(auth_url),
        !is_sensitive_flag(username),
        !is_sensitive_flag(region_name),
        !is_sensitive_flag(user_domain_name),
        !is_sensitive_flag(begin),
        !is_sensitive_flag(end),
    ensures
        redacted(
            command_line(
                auth_url,
                username,
                password,
                project_id,
                region_name,
                user_domain_name,
                begin,
                end,
            ),
        ) == command_line(
            auth_url,
            username,
            masked(password),
            masked(project_id),
            region_name,
            user_domain_name,
            begin,
            end,
        ),
{
    lemma_fixed_words();
    let c1 = credential_args("--os-auth-url"@, auth_url);
    let c2 = credential_args("--os-username"@, username);
    let c3 = credential_args("--os-password"@, password);
    let c4 = credential_args("--os-project-id"@, project_id);
    let c5 = credential_args("--os-region-name"@, region_name);
    let c6 = credential_args("--os-user-domain-name"@, user_domain_name);
    let m3 = credential_args("--os-password"@, masked(password));
    let m4 = credential_args("--os-project-id"@, masked(project_id));
    let q = rating_args(begin, end);
    lemma_redaction_keeps_query(begin, end);
    lemma_redaction_keeps_credential("--os-user-domain-name"@, user_domain_name, q);
    lemma_redaction_keeps_credential("--os-region-name"@, region_name, c6 + q);
    lemma_redaction_masks_secret("--os-project-id"@, project_id, c5 + (c6 + q));
    lemma_redaction_masks_secret("--os-password"@, password, c4 + (c5 + (c6 + q)));
    lemma_redaction_keeps_credential("--os-username"@, username, c3 + (c4 + (c5 + (c6 + q))));
    lemma_redaction_keeps_credential(
        "--os-auth-url"@,
        auth_url,
        c2 + (c3 + (c4 + (c5 + (c6 + q)))),
    );
    lemma_concatenation_nests(c1, c2, c3, c4, c5, c6, q);
    lemma_concatenation_nests(c1, c2, m3, m4, c5, c6, q);
}

/// The query part of a command line passes redaction unchanged.
proof fn lemma_redaction_keeps_query(begin: Seq<char>, end: Seq<char>)
    requires
        !is_sensitive_flag(begin),
        !is_sensitive_flag(end),
    ensures
        redacted(rating_args(begin, end)) == rating_args(begin, end),
{
    lemma_fixed_words();
    let q = rating_args(begin, end);
    let empty = Seq::<Seq<char>>::empty();
    lemma_redaction_keeps_plain_args(q, empty);
    assert(q + empty =~= q);
    assert(redacted(empty) =~= empty);
}

/// Sequences joined from the left are those joined from the right.
proof fn lemma_concatenation_nests<T>(
    a: Seq<T>,
    b: Seq<T>,
    c: Seq<T>,
    d: Seq<T>,
    e: Seq<T>,
    f: Seq<T>,
    g: Seq<T>,
)
    ensures
        a + b + c + d + e + f + g == a + (b + (c + (d + (e + (f + g))))),
{
    assert(a + b + c + d + e + f + g =~= a + (b + (c + (d + (e + (f + g))))));
}

} // verus!
