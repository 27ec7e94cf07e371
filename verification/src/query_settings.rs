//! Arguments of the query tools and of the server.

use vstd::prelude::*;

use crate::arguments::{following, needed, optional_text, take_value};
use crate::structural_settings::{addressable_number, parse_addressable_number};
use crate::text::{characters, same_str, string_from, text_views, trim, trimmed};

verus! {

/// Where a character first stands.
pub open spec fn first_of(text: Seq<char>, wanted: char) -> int
    decreases text.len(),
{
    if text.len() == 0 || text[0] == wanted {
        0
    } else {
        1 + first_of(text.drop_first(), wanted)
    }
}

/// The parts of a text before and behind its first `=`.
pub open spec fn split_pair(text: Seq<char>) -> Option<(Seq<char>, Seq<char>)> {
    let place = first_of(text, '=');
    if place < text.len() {
        Some((text.take(place), text.skip(place + 1)))
    } else {
        None
    }
}

/// Splits a text at its first `=`.
pub fn split_once(text: &str) -> (pair: Option<(String, String)>)
    ensures
        match pair {
            Some(pair) => split_pair(text@) == Some((pair.0@, pair.1@)),
            None => split_pair(text@) is None,
        },
{
    let all = characters(text);
    let mut place: usize = 0;
    assert(text@.skip(0) =~= text@);
    while place < all.len() && all[place] != '='
        invariant
            all@ == text@,
            place <= all@.len(),
            first_of(text@, '=') == place + first_of(text@.skip(place as int), '='),
        decreases all@.len() - place,
    {
        assert(text@.skip(place as int)[0] == text@[place as int]);
        assert(text@.skip(place as int).drop_first() =~= text@.skip(place + 1));
        place = place + 1;
    }
    if place < all.len() {
        assert(text@.skip(place as int)[0] == '=');
        let key = string_from(vstd::slice::slice_subrange(all.as_slice(), 0, place));
        let value = string_from(
            vstd::slice::slice_subrange(all.as_slice(), place + 1, all.len()),
        );
        assert(key@ =~= text@.take(place as int));
        assert(value@ =~= text@.skip(place + 1));
        Some((key, value))
    } else {
        assert(text@.skip(place as int).len() == 0);
        None
    }
}

/// Reads a label of the form `key=value`.
pub fn parse_pair(input: &str) -> (pair: Result<(String, String), String>)
    ensures
        match pair {
            Ok(pair) => split_pair(input@) == Some((pair.0@, pair.1@)) && pair.0@.len() > 0,
            Err(text) => match split_pair(input@) {
                None => text@ == "labels must use key=value"@,
                Some(pair) => pair.0.len() == 0 && text@ == "label keys must not be empty"@,
            },
        },
{
    match split_once(input) {
        None => Err("labels must use key=value".to_owned()),
        Some(pair) => if pair.0.as_str().is_empty() {
            Err("label keys must not be empty".to_owned())
        } else {
            Ok(pair)
        },
    }
}

/// Settings of the packed query benchmark.
#[derive(Debug, PartialEq, Eq)]
pub struct PackQuerySettings {
    /// Directory of the packs.
    pub output_dir: String,
    /// Terms that a message holds.
    pub terms: Vec<String>,
    /// Fields that a record holds.
    pub fields: Vec<(String, String)>,
    /// Records of a page.
    pub limit: usize,
    /// Whether the newest come first.
    pub newest_first: bool,
    /// Warm queries.
    pub iterations: usize,
    /// Cold queries.
    pub cold_iterations: usize,
    /// Workers.
    pub workers: usize,
    /// Texts that a message holds.
    pub contains: Vec<String>,
    /// Patterns that a message matches.
    pub regexes: Vec<String>,
    /// Where results are written.
    pub emit_results: Option<String>,
}

/// What settings of the packed query benchmark say.
#[verifier::ext_equal]
pub struct PackQueryPlan {
    /// Directory of the packs.
    pub output_dir: Seq<char>,
    /// Terms that a message holds.
    pub terms: Seq<Seq<char>>,
    /// Fields that a record holds.
    pub fields: Seq<(Seq<char>, Seq<char>)>,
    /// Records of a page.
    pub limit: nat,
    /// Whether the newest come first.
    pub newest_first: bool,
    /// Warm queries.
    pub iterations: nat,
    /// Cold queries.
    pub cold_iterations: nat,
    /// Workers.
    pub workers: nat,
    /// Texts that a message holds.
    pub contains: Seq<Seq<char>>,
    /// Patterns that a message matches.
    pub regexes: Seq<Seq<char>>,
    /// Where results are written.
    pub emit_results: Option<Seq<char>>,
}

/// Texts of pairs.
pub open spec fn pair_texts(pairs: Seq<(String, String)>) -> Seq<(Seq<char>, Seq<char>)> {
    Seq::new(pairs.len(), |i: int| (pairs[i].0@, pairs[i].1@))
}

impl View for PackQuerySettings {
    type V = PackQueryPlan;

    open spec fn view(&self) -> PackQueryPlan {
        PackQueryPlan {
            output_dir: self.output_dir@,
            terms: text_views(self.terms@),
            fields: pair_texts(self.fields@),
            limit: self.limit as nat,
            newest_first: self.newest_first,
            iterations: self.iterations as nat,
            cold_iterations: self.cold_iterations as nat,
            workers: self.workers as nat,
            contains: text_views(self.contains@),
            regexes: text_views(self.regexes@),
            emit_results: optional_text(self.emit_results),
        }
    }
}

/// What one flag and its value change.
pub open spec fn pack_query_flag(
    plan: PackQueryPlan,
    flag: Seq<char>,
    value: Option<Seq<char>>,
) -> Result<PackQueryPlan, Seq<char>> {
    if flag == "--term"@ {
        match needed(value, "--term requires a value"@) {
            Err(text) => Err(text),
            Ok(term) => Ok(PackQueryPlan { terms: plan.terms.push(term), ..plan }),
        }
    } else if flag == "--field"@ {
        match needed(value, "--field requires KEY=VALUE"@) {
            Err(text) => Err(text),
            Ok(field) => match split_pair(field) {
                None => Err("--field requires KEY=VALUE"@),
                Some(pair) => Ok(PackQueryPlan { fields: plan.fields.push(pair), ..plan }),
            },
        }
    } else if flag == "--contains"@ {
        match needed(value, "--contains requires a value"@) {
            Err(text) => Err(text),
            Ok(part) => Ok(PackQueryPlan { contains: plan.contains.push(part), ..plan }),
        }
    } else if flag == "--regex"@ {
        match needed(value, "--regex requires a pattern"@) {
            Err(text) => Err(text),
            Ok(pattern) => Ok(PackQueryPlan { regexes: plan.regexes.push(pattern), ..plan }),
        }
    } else if flag == "--emit-results"@ {
        match needed(value, "--emit-results requires a path"@) {
            Err(text) => Err(text),
            Ok(path) => Ok(PackQueryPlan { emit_results: Some(path), ..plan }),
        }
    } else if flag == "--oldest"@ {
        Ok(PackQueryPlan { newest_first: false, ..plan })
    } else if flag == "--limit"@ {
        match needed(value, "--limit requires a value"@) {
            Err(text) => Err(text),
            Ok(count) => match addressable_number(count) {
                Err(text) => Err(text),
                Ok(limit) => Ok(PackQueryPlan { limit, ..plan }),
            },
        }
    } else if flag == "--iterations"@ {
        match needed(value, "--iterations requires a value"@) {
            Err(text) => Err(text),
            Ok(count) => match addressable_number(count) {
                Err(text) => Err(text),
                Ok(iterations) => Ok(PackQueryPlan { iterations, ..plan }),
            },
        }
    } else if flag == "--cold-iterations"@ {
        match needed(value, "--cold-iterations requires a value"@) {
            Err(text) => Err(text),
            Ok(count) => match addressable_number(count) {
                Err(text) => Err(text),
                Ok(cold_iterations) => Ok(PackQueryPlan { cold_iterations, ..plan }),
            },
        }
    } else if flag == "--workers"@ {
        match needed(value, "--workers requires a value"@) {
            Err(text) => Err(text),
            Ok(count) => match addressable_number(count) {
                Err(text) => Err(text),
                Ok(workers) => Ok(PackQueryPlan { workers, ..plan }),
            },
        }
    } else {
        Err("unknown argument: "@ + flag)
    }
}

/// How many arguments a flag takes.
pub open spec fn flag_width(flag: Seq<char>) -> int {
    if flag == "--oldest"@ {
        1
    } else {
        2
    }
}

/// What the flags from a position on change.
pub open spec fn pack_query_flags(
    plan: PackQueryPlan,
    arguments: Seq<Seq<char>>,
    position: int,
) -> Result<PackQueryPlan, Seq<char>>
    decreases arguments.len() - position,
{
    if position < 0 || position >= arguments.len() {
        Ok(plan)
    } else {
        match pack_query_flag(plan, arguments[position], following(arguments, position)) {
            Err(text) => Err(text),
            Ok(next) => pack_query_flags(
                next,
                arguments,
                position + flag_width(arguments[position]),
            ),
        }
    }
}

/// Settings before any flag.
pub open spec fn pack_query_defaults(output_dir: Seq<char>) -> PackQueryPlan {
    PackQueryPlan {
        output_dir,
        terms: Seq::empty(),
        fields: Seq::empty(),
        limit: 100,
        newest_first: true,
        iterations: 100,
        cold_iterations: 0,
        workers: 1,
        contains: Seq::empty(),
        regexes: Seq::empty(),
        emit_results: None,
    }
}

/// The settings that arguments give.
pub open spec fn pack_query_plan(arguments: Seq<Seq<char>>) -> Result<PackQueryPlan, Seq<char>> {
    if arguments.len() == 0 {
        Err(
            "usage: shard-telemetry-pack-query-bench <pack-directory> [--term TERM] [--field KEY=VALUE] [--contains TEXT] [--regex PATTERN] [--limit N] [--oldest] [--iterations N] [--cold-iterations N] [--workers N] [--emit-results PATH]"@,
        )
    } else {
        match pack_query_flags(pack_query_defaults(arguments[0]), arguments, 1) {
            Err(text) => Err(text),
            Ok(plan) => if plan.limit == 0 || plan.iterations == 0 || plan.workers == 0 {
                Err("limit, iterations, and workers must be nonzero"@)
            } else {
                Ok(plan)
            },
        }
    }
}

fn push_text(texts: &mut Vec<String>, text: &String)
    ensures
        text_views(final(texts)@) == text_views(old(texts)@).push(text@),
{
    texts.push(text.clone());
    assert(text_views(texts@) =~= text_views(old(texts)@).push(text@));
}

fn apply_text_flag(
    settings: &mut PackQuerySettings,
    arguments: &Vec<String>,
    position: usize,
) -> (applied: Result<bool, String>)
    requires
        position < arguments@.len(),
    ensures
        ({
            let flag = arguments@[position as int]@;
            let mine = flag == "--term"@ || flag == "--field"@ || flag == "--contains"@ || flag
                == "--regex"@ || flag == "--emit-results"@ || flag == "--oldest"@;
            let outcome = pack_query_flag(
                old(settings)@,
                flag,
                following(text_views(arguments@), position as int),
            );
            match applied {
                Ok(true) => mine && outcome == Ok::<PackQueryPlan, Seq<char>>(final(settings)@),
                Ok(false) => !mine && *final(settings) == *old(settings),
                Err(text) => mine && outcome == Err::<PackQueryPlan, Seq<char>>(text@),
            }
        }),
{
    let flag = arguments[position].as_str();
    if same_str(flag, "--term") {
        let value = take_value(arguments, position, "--term requires a value")?;
        push_text(&mut settings.terms, value);
    } else if same_str(flag, "--field") {
        let value = take_value(arguments, position, "--field requires KEY=VALUE")?;
        match split_once(value.as_str()) {
            None => {
                return Err("--field requires KEY=VALUE".to_owned());
            },
            Some(pair) => {
                let ghost before = settings.fields@;
                settings.fields.push(pair);
                assert(pair_texts(settings.fields@) =~= pair_texts(before).push(
                    (pair.0@, pair.1@),
                ));
            },
        }
    } else if same_str(flag, "--contains") {
        let value = take_value(arguments, position, "--contains requires a value")?;
        push_text(&mut settings.contains, value);
    } else if same_str(flag, "--regex") {
        let value = take_value(arguments, position, "--regex requires a pattern")?;
        push_text(&mut settings.regexes, value);
    } else if same_str(flag, "--emit-results") {
        let value = take_value(arguments, position, "--emit-results requires a path")?;
        settings.emit_results = Some(value.clone());
    } else if same_str(flag, "--oldest") {
        settings.newest_first = false;
    } else {
        return Ok(false);
    }
    Ok(true)
}

fn apply_pack_query_flag(
    settings: &mut PackQuerySettings,
    arguments: &Vec<String>,
    position: usize,
) -> (applied: Result<(), String>)
    requires
        position < arguments@.len(),
    ensures
        ({
            let outcome = pack_query_flag(
                old(settings)@,
                arguments@[position as int]@,
                following(text_views(arguments@), position as int),
            );
            match applied {
                Ok(_) => outcome == Ok::<PackQueryPlan, Seq<char>>(final(settings)@),
                Err(text) => outcome == Err::<PackQueryPlan, Seq<char>>(text@),
            }
        }),
{
    if apply_text_flag(settings, arguments, position)? {
        return Ok(());
    }
    let flag = arguments[position].as_str();
    if same_str(flag, "--limit") {
        let value = take_value(arguments, position, "--limit requires a value")?;
        settings.limit = parse_addressable_number(value.as_str())?;
    } else if same_str(flag, "--iterations") {
        let value = take_value(arguments, position, "--iterations requires a value")?;
        settings.iterations = parse_addressable_number(value.as_str())?;
    } else if same_str(flag, "--cold-iterations") {
        let value = take_value(arguments, position, "--cold-iterations requires a value")?;
        settings.cold_iterations = parse_addressable_number(value.as_str())?;
    } else if same_str(flag, "--workers") {
        let value = take_value(arguments, position, "--workers requires a value")?;
        settings.workers = parse_addressable_number(value.as_str())?;
    } else {
        let mut text = "unknown argument: ".to_owned();
        text.append(flag);
        return Err(text);
    }
    Ok(())
}

/// Reads the arguments of the packed query benchmark.
pub fn parse_pack_query_settings(arguments: &Vec<String>) -> (settings: Result<
    PackQuerySettings,
    String,
>)
    ensures
        match settings {
            Ok(settings) => pack_query_plan(text_views(arguments@)) == Ok::<
                PackQueryPlan,
                Seq<char>,
            >(settings@),
            Err(text) => pack_query_plan(text_views(arguments@)) == Err::<
                PackQueryPlan,
                Seq<char>,
            >(text@),
        },
{
    let ghost views = text_views(arguments@);
    if arguments.len() == 0 {
        return Err(
            "usage: shard-telemetry-pack-query-bench <pack-directory> [--term TERM] [--field KEY=VALUE] [--contains TEXT] [--regex PATTERN] [--limit N] [--oldest] [--iterations N] [--cold-iterations N] [--workers N] [--emit-results PATH]".to_owned(),
        );
    }
    let mut settings = PackQuerySettings {
        output_dir: arguments[0].clone(),
        terms: Vec::new(),
        fields: Vec::new(),
        limit: 100,
        newest_first: true,
        iterations: 100,
        cold_iterations: 0,
        workers: 1,
        contains: Vec::new(),
        regexes: Vec::new(),
        emit_results: None,
    };
    assert(settings@ =~= pack_query_defaults(views[0]));
    let mut position: usize = 1;
    while position < arguments.len()
        invariant
            1 <= position,
            views == text_views(arguments@),
            views.len() > 0,
            pack_query_flags(pack_query_defaults(views[0]), views, 1) == pack_query_flags(
                settings@,
                views,
                position as int,
            ),
        decreases arguments@.len() - position,
    {
        assert(views[position as int] == arguments@[position as int]@);
        apply_pack_query_flag(&mut settings, arguments, position)?;
        if position + 1 < arguments.len() && !same_str(arguments[position].as_str(), "--oldest") {
            position = position + 2;
        } else {
            position = position + 1;
        }
    }
    if settings.limit == 0 || settings.iterations == 0 || settings.workers == 0 {
        return Err("limit, iterations, and workers must be nonzero".to_owned());
    }
    Ok(settings)
}

/// Checks the text of a token file.
pub fn check_secret(purpose: &str, path: &str, is_file: bool, length: u64, content: &str) -> (token:
    Result<String, String>)
    ensures
        match token {
            Ok(token) => is_file && length <= 4_096 && token@ == trimmed(content@) && token@.len()
                > 0,
            Err(text) => if !is_file {
                text@ == purpose@ + " token path "@ + path@ + " is not a file"@
            } else if length > 4_096 {
                text@ == purpose@ + " token file "@ + path@ + " exceeds 4096 bytes"@
            } else {
                trimmed(content@).len() == 0 && text@ == purpose@ + " token file "@ + path@
                    + " is empty"@
            },
        },
{
    if !is_file {
        let mut text = purpose.to_owned();
        text.append(" token path ");
        text.append(path);
        text.append(" is not a file");
        return Err(text);
    }
    if length > 4_096 {
        let mut text = purpose.to_owned();
        text.append(" token file ");
        text.append(path);
        text.append(" exceeds 4096 bytes");
        return Err(text);
    }
    let all = characters(content);
    let token = string_from(trim(all.as_slice()));
    if token.as_str().is_empty() {
        let mut text = purpose.to_owned();
        text.append(" token file ");
        text.append(path);
        text.append(" is empty");
        return Err(text);
    }
    Ok(token)
}

/// What the server is asked for, as far as it can be refused.
#[derive(Debug, Clone, Copy, PartialEq, Eq, Structural)]
pub struct ServerPlan {
    /// Entries of one query, at most.
    pub max_query_limit: usize,
    /// Seconds of an administrative flush, at most.
    pub flush_timeout_seconds: u64,
    /// Seconds of one query, at most.
    pub query_timeout_seconds: u64,
    /// Seconds before a native connection authenticates, at most.
    pub native_auth_timeout_seconds: u64,
    /// Seconds that records are kept, or zero.
    pub retention_seconds: u64,
    /// Seconds between retention passes.
    pub retention_compaction_interval_seconds: u64,
    /// Whether authentication is waived.
    pub insecure_development_mode: bool,
    /// Whether a token file is named.
    pub has_auth_token_file: bool,
    /// Whether an object store is named.
    pub has_object_store: bool,
    /// Tenant partitions.
    pub tenant_partitions: u32,
}

/// What speaks against a plan of the server.
pub open spec fn server_conflict(plan: ServerPlan) -> Option<Seq<char>> {
    if plan.max_query_limit == 0 {
        Some("--max-query-limit must be nonzero"@)
    } else if plan.flush_timeout_seconds == 0 {
        Some("--flush-timeout-seconds must be nonzero"@)
    } else if plan.query_timeout_seconds == 0 {
        Some("--query-timeout-seconds must be nonzero"@)
    } else if plan.native_auth_timeout_seconds == 0 {
        Some("--native-auth-timeout-seconds must be nonzero"@)
    } else if plan.retention_seconds > 0 && plan.retention_compaction_interval_seconds == 0 {
        Some(
            "--retention-compaction-interval-seconds must be nonzero when retention is enabled"@,
        )
    } else if plan.insecure_development_mode && plan.has_auth_token_file {
        Some("--insecure-development-mode conflicts with --auth-token-file"@)
    } else if !plan.insecure_development_mode && !plan.has_auth_token_file {
        Some("--auth-token-file is required unless --insecure-development-mode is explicit"@)
    } else if plan.has_auth_token_file && !plan.has_object_store {
        Some(
            "--object-store-directory is required in production mode for durable compressed checkpoints"@,
        )
    } else if plan.tenant_partitions == 0 || plan.tenant_partitions > 65_535 {
        Some("--tenant-partitions must be in 1..=65535"@)
    } else {
        None
    }
}

/// Checks a plan of the server.
pub fn check_server(plan: &ServerPlan) -> (verdict: Result<(), String>)
    ensures
        match verdict {
            Ok(_) => server_conflict(*plan) is None,
            Err(text) => server_conflict(*plan) == Some(text@),
        },
{
    if plan.max_query_limit == 0 {
        return Err("--max-query-limit must be nonzero".to_owned());
    }
    if plan.flush_timeout_seconds == 0 {
        return Err("--flush-timeout-seconds must be nonzero".to_owned());
    }
    if plan.query_timeout_seconds == 0 {
        return Err("--query-timeout-seconds must be nonzero".to_owned());
    }
    if plan.native_auth_timeout_seconds == 0 {
        return Err("--native-auth-timeout-seconds must be nonzero".to_owned());
    }
    if plan.retention_seconds > 0 && plan.retention_compaction_interval_seconds == 0 {
        return Err(
            "--retention-compaction-interval-seconds must be nonzero when retention is enabled".to_owned(),
        );
    }
    if plan.insecure_development_mode && plan.has_auth_token_file {
        return Err("--insecure-development-mode conflicts with --auth-token-file".to_owned());
    }
    if !plan.insecure_development_mode && !plan.has_auth_token_file {
        return Err(
            "--auth-token-file is required unless --insecure-development-mode is explicit".to_owned(),
        );
    }
    if plan.has_auth_token_file && !plan.has_object_store {
        return Err(
            "--object-store-directory is required in production mode for durable compressed checkpoints".to_owned(),
        );
    }
    if plan.tenant_partitions == 0 || plan.tenant_partitions > 65_535 {
        return Err("--tenant-partitions must be in 1..=65535".to_owned());
    }
    Ok(())
}

} // verus!
