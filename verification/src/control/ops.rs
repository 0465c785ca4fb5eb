//! The decisions of the control plane's database operations: what a plan
//! shows, when an apply or a delete goes ahead, how a sample is bounded,
//! and which settings the service starts with. The database calls are made
//! by the service around these functions.
use vstd::prelude::*;

use crate::control::model::{
    method_key, methods_spec, source_head_spec, source_validate_spec, source_views, validate_identifier,
    validate_identifier_spec, Bundle, MutationResult, SampleQuery, SourceDefinition, SourceV,
};
use crate::control::sql::{
    normalized_methods_spec, plan_display, plan_parts, source_plan, source_plan_spec, terminated,
};
use crate::text::{append, append_str, chars_of, decimal, join, string_of};

verus! {

// ---------------------------------------------------------------------------
// Validated sources always have a plan
// ---------------------------------------------------------------------------

proof fn lemma_methods_known(ms: Seq<Seq<char>>, seen: Seq<Seq<char>>)
    requires
        methods_spec(ms, seen) is Ok,
    ensures
        forall|i: int| 0 <= i < ms.len() ==> #[trigger] method_key(ms[i]) == "GET"@ || method_key(ms[i]) == "POST"@,
    decreases ms.len(),
{
    if ms.len() > 0 {
        lemma_methods_known(ms.drop_first(), seen.push(method_key(ms[0])));
        assert forall|i: int| 0 <= i < ms.len() implies #[trigger] method_key(ms[i]) == "GET"@ || method_key(ms[i])
            == "POST"@ by {
            if i > 0 {
                assert(ms[i] == ms.drop_first()[i - 1]);
            }
        }
    }
}

proof fn lemma_join_without(items: Seq<Seq<char>>, sep: Seq<char>, c: char)
    requires
        forall|i: int| 0 <= i < items.len() ==> !(#[trigger] items[i]).contains(c),
        !sep.contains(c),
    ensures
        !join(items, sep).contains(c),
    decreases items.len(),
{
    if items.len() > 1 {
        lemma_join_without(items.drop_last(), sep, c);
        let a = join(items.drop_last(), sep);
        let whole = a + sep + items.last();
        assert(!items.last().contains(c));
        assert forall|k: int| 0 <= k < whole.len() implies whole[k] != c by {
            if k < a.len() {
                assert(whole[k] == a[k]);
            } else if k < a.len() + sep.len() {
                assert(whole[k] == sep[k - a.len()]);
            } else {
                assert(whole[k] == items.last()[k - a.len() - sep.len()]);
            }
        }
    } else if items.len() == 1 {
        assert(!items[0].contains(c));
    }
}

/// The `methods` option of a valid source holds no NUL, so its plan exists.
pub proof fn lemma_valid_methods_have_no_nul(s: SourceV, require_credentials: bool)
    requires
        source_validate_spec(s, require_credentials) is Ok,
    ensures
        !normalized_methods_spec(s).contains('\0'),
{
    assert(source_head_spec(s) is Ok);
    lemma_methods_known(s.methods, Seq::empty());
    let keys = s.methods.map_values(|m: Seq<char>| method_key(m));
    reveal_strlit("GET");
    reveal_strlit("POST");
    reveal_strlit(",");
    assert forall|i: int| 0 <= i < keys.len() implies !(#[trigger] keys[i]).contains('\0') by {
        assert(keys[i] == method_key(s.methods[i]));
        if keys[i] == "GET"@ {
            assert(forall|k: int| 0 <= k < 3 ==> "GET"@[k] != '\0');
        } else {
            assert(forall|k: int| 0 <= k < 4 ==> "POST"@[k] != '\0');
        }
    }
    assert(forall|k: int| 0 <= k < 1 ==> ","@[k] != '\0');
    lemma_join_without(keys, ","@, '\0');
}

proof fn lemma_bundle_sources_valid(ss: Seq<SourceV>, seen: Seq<Seq<char>>, require_credentials: bool)
    requires
        crate::control::model::bundle_sources_spec(ss, seen, require_credentials) is Ok,
    ensures
        forall|i: int| 0 <= i < ss.len() ==> (#[trigger] source_validate_spec(ss[i], require_credentials)) is Ok,
    decreases ss.len(),
{
    if ss.len() > 0 {
        lemma_bundle_sources_valid(ss.drop_first(), seen.push(ss[0].name), require_credentials);
        assert forall|i: int| 0 <= i < ss.len() implies (#[trigger] source_validate_spec(
            ss[i],
            require_credentials,
        )) is Ok by {
            if i > 0 {
                assert(ss[i] == ss.drop_first()[i - 1]);
            }
        }
    }
}

// ---------------------------------------------------------------------------
// Plans
// ---------------------------------------------------------------------------

pub type PlanParts = (Seq<char>, Option<Seq<char>>, Seq<char>, Seq<char>, Seq<char>);

pub open spec fn parts_statements(t: PlanParts) -> Seq<Seq<char>> {
    seq![t.0] + match t.1 {
        Some(d) => seq![d],
        None => Seq::empty(),
    } + seq![t.2, t.3, t.4]
}

/// A plan as displayed: each statement ending in one semicolon, a blank line
/// between statements.
pub open spec fn parts_display(t: PlanParts) -> Seq<char> {
    join(parts_statements(t).map_values(|s: Seq<char>| terminated(s)), "\n\n"@)
}

pub open spec fn plan_separator() -> Seq<char> {
    "\n\n-- next source --\n\n"@
}

/// The displayed redacted plans of the sources, in order.
pub open spec fn source_displays(ss: Seq<SourceV>, replace: bool) -> Result<Seq<Seq<char>>, Seq<char>>
    decreases ss.len(),
{
    if ss.len() == 0 {
        Ok(Seq::empty())
    } else {
        match source_displays(ss.drop_last(), replace) {
            Err(e) => Err(e),
            Ok(ds) => {
                let s = ss.last();
                match source_plan_spec(s, s.name, s.schema, replace, true) {
                    Err(e) => Err(e),
                    Ok(p) => Ok(ds.push(parts_display(p))),
                }
            },
        }
    }
}

/// `plan_bundle`: a bundle, validated without requiring credentials, as the
/// redacted SQL that applying it would run, source by source.
pub open spec fn plan_bundle_spec(
    api_version: Seq<char>,
    kind: Seq<char>,
    sources: Seq<SourceV>,
    replace: bool,
) -> Result<Seq<char>, Seq<char>> {
    match crate::control::model::bundle_validate_spec(api_version, kind, sources, false) {
        Err(e) => Err(e),
        Ok(()) => match source_displays(sources, replace) {
            Err(e) => Err(e),
            Ok(ds) => Ok(join(ds, plan_separator())),
        },
    }
}

proof fn lemma_display_parts(p: crate::control::sql::SqlPlan)
    ensures
        plan_display(p) == parts_display(plan_parts(p)),
{
    assert(crate::control::sql::plan_statements(p) =~= parts_statements(plan_parts(p)));
}

fn join_displays(parts: &Vec<String>) -> (r: String)
    ensures
        r@ == join(crate::sorting::views(parts@), plan_separator()),
{
    let mut chars: Vec<Vec<char>> = Vec::new();
    let mut i: usize = 0;
    while i < parts.len()
        invariant
            i <= parts.len(),
            chars@.map_values(|v: Vec<char>| v@) == crate::sorting::views(parts@).take(i as int),
        decreases parts.len() - i,
    {
        let c = chars_of(parts[i].as_str());
        let ghost before = chars@;
        chars.push(c);
        assert(chars@.map_values(|v: Vec<char>| v@) =~= before.map_values(|v: Vec<char>| v@).push(
            parts@[i as int]@,
        ));
        assert(crate::sorting::views(parts@).take(i + 1) =~= crate::sorting::views(parts@).take(
            i as int,
        ).push(parts@[i as int]@));
        i = i + 1;
    }
    assert(crate::sorting::views(parts@).take(i as int) =~= crate::sorting::views(parts@));
    let j = crate::text::join_exec(&chars, "\n\n-- next source --\n\n");
    string_of(&j)
}

pub fn plan_bundle(bundle: &Bundle, replace: bool) -> (r: Result<String, String>)
    ensures
        match r {
            Ok(s) => plan_bundle_spec(bundle.api_version@, bundle.kind@, source_views(bundle.sources@), replace)
                == Ok::<Seq<char>, Seq<char>>(s@),
            Err(e) => plan_bundle_spec(bundle.api_version@, bundle.kind@, source_views(bundle.sources@), replace)
                == Err::<Seq<char>, Seq<char>>(e@),
        },
{
    match bundle.validate(false) {
        Err(e) => return Err(e),
        Ok(()) => {},
    }
    let ghost ss = source_views(bundle.sources@);
    proof {
        lemma_bundle_sources_valid(ss, Seq::empty(), false);
    }
    let mut displays: Vec<String> = Vec::new();
    let mut i: usize = 0;
    assert(ss.take(0) =~= Seq::<SourceV>::empty());
    assert(crate::sorting::views(displays@) =~= Seq::<Seq<char>>::empty());
    while i < bundle.sources.len()
        invariant
            i <= bundle.sources.len(),
            ss == source_views(bundle.sources@),
            ss.len() == bundle.sources.len(),
            crate::control::model::bundle_validate_spec(bundle.api_version@, bundle.kind@, ss, false) is Ok,
            forall|k: int| 0 <= k < ss.len() ==> (#[trigger] source_validate_spec(ss[k], false)) is Ok,
            source_displays(ss.take(i as int), replace) == Ok::<Seq<Seq<char>>, Seq<char>>(
                crate::sorting::views(displays@),
            ),
        decreases bundle.sources.len() - i,
    {
        let source = &bundle.sources[i];
        assert(ss[i as int] == source@);
        assert(ss.take(i + 1).drop_last() =~= ss.take(i as int));
        assert(ss.take(i + 1).last() == source@);
        proof {
            assert(source_validate_spec(ss[i as int], false) is Ok);
            lemma_valid_methods_have_no_nul(source@, false);
        }
        match source_plan(source, source.name.as_str(), source.schema.as_str(), replace, true) {
            Ok(plan) => {
                let d = plan.display();
                proof {
                    lemma_display_parts(plan);
                }
                let ghost before = displays@;
                displays.push(d);
                assert(crate::sorting::views(displays@) =~= crate::sorting::views(before).push(
                    parts_display(plan_parts(plan)),
                ));
            },
            Err(e) => {
                proof {
                    lemma_displays_error(ss, replace, i + 1);
                }
                return Err(e);
            },
        }
        i = i + 1;
    }
    assert(ss.take(i as int) =~= ss);
    Ok(join_displays(&displays))
}

proof fn lemma_displays_error(ss: Seq<SourceV>, replace: bool, k: int)
    requires
        0 < k <= ss.len(),
        source_displays(ss.take(k), replace) is Err,
    ensures
        source_displays(ss, replace) == source_displays(ss.take(k), replace),
    decreases ss.len() - k,
{
    if k < ss.len() {
        assert(ss.take(k + 1).drop_last() =~= ss.take(k));
        lemma_displays_error(ss, replace, k + 1);
    } else {
        assert(ss.take(k) =~= ss);
    }
}


// ---------------------------------------------------------------------------
// Applying sources
// ---------------------------------------------------------------------------

/// Whether a source's server may be (re)created: a server of another
/// wrapper is never touched, and an existing one only with `replace`.
/// `Ok(true)` means the existing server is dropped first.
pub open spec fn apply_slot_spec(name: Seq<char>, existing_wrapper: Option<Seq<char>>, replace: bool) -> Result<
    bool,
    Seq<char>,
> {
    match existing_wrapper {
        Some(w) => if w != "openapi_fdw"@ {
            Err("foreign server `"@ + name + "` belongs to FDW `"@ + w + "` and will not be replaced"@)
        } else if !replace {
            Err(
                "foreign server `"@ + name
                    + "` already exists; choose replace explicitly to reconcile it"@,
            )
        } else {
            Ok(true)
        },
        None => Ok(false),
    }
}

pub fn apply_slot(name: &str, existing_wrapper: Option<&str>, replace: bool) -> (r: Result<bool, String>)
    ensures
        match r {
            Ok(b) => apply_slot_spec(
                name@,
                match existing_wrapper {
                    Some(w) => Some(w@),
                    None => None,
                },
                replace,
            ) == Ok::<bool, Seq<char>>(b),
            Err(e) => apply_slot_spec(
                name@,
                match existing_wrapper {
                    Some(w) => Some(w@),
                    None => None,
                },
                replace,
            ) == Err::<bool, Seq<char>>(e@),
        },
{
    match existing_wrapper {
        Some(w) => {
            if !crate::text::str_eq(w, "openapi_fdw") {
                let mut m = chars_of("foreign server `");
                append_str(&mut m, name);
                append_str(&mut m, "` belongs to FDW `");
                append_str(&mut m, w);
                append_str(&mut m, "` and will not be replaced");
                return Err(string_of(&m));
            }
            if !replace {
                let mut m = chars_of("foreign server `");
                append_str(&mut m, name);
                append_str(&mut m, "` already exists; choose replace explicitly to reconcile it");
                return Err(string_of(&m));
            }
            Ok(true)
        },
        None => Ok(false),
    }
}

/// A source must import at least one table, and exactly its listed tables
/// when it lists some.
pub open spec fn imported_check_spec(name: Seq<char>, requested: nat, imported: i64) -> Result<(), Seq<char>> {
    if imported == 0 {
        Err("source `"@ + name + "` imported no foreign tables"@)
    } else if requested > 0 && imported != requested {
        Err(
            "source `"@ + name + "` requested "@ + decimal(requested) + " tables but imported "@
                + crate::fdw::int_text(imported as int),
        )
    } else {
        Ok(())
    }
}

pub fn check_imported(source: &SourceDefinition, imported: i64) -> (r: Result<(), String>)
    ensures
        match r {
            Ok(()) => imported_check_spec(source.name@, source.tables@.len(), imported) is Ok,
            Err(e) => imported_check_spec(source.name@, source.tables@.len(), imported) == Err::<
                (),
                Seq<char>,
            >(e@),
        },
{
    if imported == 0 {
        let mut m = chars_of("source `");
        append_str(&mut m, source.name.as_str());
        append_str(&mut m, "` imported no foreign tables");
        return Err(string_of(&m));
    }
    let requested = source.tables.len();
    if requested > 0 && (imported < 0 || imported as u64 != requested as u64) {
        let mut m = chars_of("source `");
        append_str(&mut m, source.name.as_str());
        append_str(&mut m, "` requested ");
        let d = crate::text::decimal_of(requested as u64);
        append(&mut m, &d);
        append_str(&mut m, " tables but imported ");
        let t = crate::fdw::int_text_exec(imported);
        append(&mut m, &t);
        return Err(string_of(&m));
    }
    Ok(())
}

/// The displayed plans of an applied bundle, joined.
pub fn join_plans(displayed: &Vec<String>) -> (r: String)
    ensures
        r@ == join(crate::sorting::views(displayed@), plan_separator()),
{
    join_displays(displayed)
}

/// The answer to an applied source.
pub fn applied_source(source: &SourceDefinition, sql: String) -> (r: MutationResult)
    ensures
        r.ok,
        r.message@ == "source `"@ + source.name@ + "` is ready in schema `"@ + source.schema@ + "`"@,
        r.sql == sql,
{
    let mut m = chars_of("source `");
    append_str(&mut m, source.name.as_str());
    append_str(&mut m, "` is ready in schema `");
    append_str(&mut m, source.schema.as_str());
    append_str(&mut m, "`");
    MutationResult { ok: true, message: string_of(&m), sql }
}

/// The definitions that are present, in order.
pub open spec fn present_definitions(ds: Seq<Option<SourceDefinition>>) -> Seq<SourceDefinition>
    decreases ds.len(),
{
    if ds.len() == 0 {
        Seq::empty()
    } else {
        let before = present_definitions(ds.drop_last());
        match ds.last() {
            Some(d) => before.push(d),
            None => before,
        }
    }
}

/// The sources of a bundle exported from the database: the readable stored
/// definitions, in order.
pub fn export_definitions(definitions: Vec<Option<SourceDefinition>>) -> (r: Bundle)
    ensures
        r.api_version@ == crate::control::model::API_VERSION@,
        r.kind@ == crate::control::model::MANIFEST_KIND@,
        r.sources@ == present_definitions(definitions@),
{
    let mut sources: Vec<SourceDefinition> = Vec::new();
    let mut rest = definitions;
    let ghost all = rest@;
    let ghost mut i: int = 0;
    assert(all.take(0) =~= Seq::<Option<SourceDefinition>>::empty());
    assert(all.skip(0) =~= all);
    while rest.len() > 0
        invariant
            0 <= i <= all.len(),
            rest@ == all.skip(i),
            sources@ == present_definitions(all.take(i)),
        decreases rest.len(),
    {
        let d = rest.remove(0);
        assert(d == all[i]);
        assert(all.take(i + 1).drop_last() =~= all.take(i));
        assert(all.take(i + 1).last() == all[i]);
        assert(rest@ =~= all.skip(i + 1));
        match d {
            Some(x) => {
                sources.push(x);
            },
            None => {},
        }
        proof {
            i = i + 1;
        }
    }
    assert(all.take(i) =~= all);
    Bundle::new(sources)
}

// ---------------------------------------------------------------------------
// Deleting sources
// ---------------------------------------------------------------------------

/// A delete names a valid source and repeats its name exactly; its SQL drops
/// the server with its tables.
pub open spec fn delete_preflight_spec(name: Seq<char>, confirmation: Seq<char>) -> Result<Seq<char>, Seq<char>> {
    match validate_identifier_spec(name, "source name"@) {
        Err(e) => Err(e),
        Ok(()) => if name != confirmation {
            Err("confirmation must exactly match source name `"@ + name + "`"@)
        } else {
            Ok(crate::control::sql::drop_server_sql_spec(name))
        },
    }
}

pub fn delete_preflight(name: &str, confirmation: &str) -> (r: Result<String, String>)
    ensures
        match r {
            Ok(sql) => delete_preflight_spec(name@, confirmation@) == Ok::<Seq<char>, Seq<char>>(sql@),
            Err(e) => delete_preflight_spec(name@, confirmation@) == Err::<Seq<char>, Seq<char>>(e@),
        },
{
    match validate_identifier(name, "source name") {
        Err(e) => return Err(e),
        Ok(()) => {},
    }
    if !crate::text::str_eq(name, confirmation) {
        let mut m = chars_of("confirmation must exactly match source name `");
        append_str(&mut m, name);
        append_str(&mut m, "`");
        return Err(string_of(&m));
    }
    Ok(crate::control::sql::drop_server_sql(name))
}

/// Only an existing server of this wrapper is removed.
pub open spec fn deletable_spec(name: Seq<char>, existing_wrapper: Option<Seq<char>>) -> Result<(), Seq<char>> {
    match existing_wrapper {
        None => Err("foreign server `"@ + name + "` does not exist"@),
        Some(w) => if w != "openapi_fdw"@ {
            Err("foreign server `"@ + name + "` belongs to FDW `"@ + w + "` and will not be removed"@)
        } else {
            Ok(())
        },
    }
}

pub fn check_deletable(name: &str, existing_wrapper: Option<&str>) -> (r: Result<(), String>)
    ensures
        match r {
            Ok(()) => deletable_spec(
                name@,
                match existing_wrapper {
                    Some(w) => Some(w@),
                    None => None,
                },
            ) is Ok,
            Err(e) => deletable_spec(
                name@,
                match existing_wrapper {
                    Some(w) => Some(w@),
                    None => None,
                },
            ) == Err::<(), Seq<char>>(e@),
        },
{
    match existing_wrapper {
        None => {
            let mut m = chars_of("foreign server `");
            append_str(&mut m, name);
            append_str(&mut m, "` does not exist");
            Err(string_of(&m))
        },
        Some(w) => if !crate::text::str_eq(w, "openapi_fdw") {
            let mut m = chars_of("foreign server `");
            append_str(&mut m, name);
            append_str(&mut m, "` belongs to FDW `");
            append_str(&mut m, w);
            append_str(&mut m, "` and will not be removed");
            Err(string_of(&m))
        } else {
            Ok(())
        },
    }
}

/// The answer to a removed source; schemas are left in place.
pub fn deleted_source(name: &str, sql: &str) -> (r: MutationResult)
    ensures
        r.ok,
        r.message@ == "source `"@ + name@ + "` and its foreign tables were removed; schemas were preserved"@,
        r.sql@ == sql@ + ";"@,
{
    let mut m = chars_of("source `");
    append_str(&mut m, name);
    append_str(&mut m, "` and its foreign tables were removed; schemas were preserved");
    let mut q = chars_of(sql);
    append_str(&mut q, ";");
    MutationResult { ok: true, message: string_of(&m), sql: string_of(&q) }
}

// ---------------------------------------------------------------------------
// Samples
// ---------------------------------------------------------------------------

/// A sample names a valid source, schema and table, and reads 1 to 100 rows.
pub open spec fn sample_limit_spec(source: Seq<char>, schema: Seq<char>, table: Seq<char>, limit: u32) -> Result<
    u32,
    Seq<char>,
> {
    if validate_identifier_spec(source, "source name"@) is Err {
        Err(validate_identifier_spec(source, "source name"@)->Err_0)
    } else if validate_identifier_spec(schema, "schema"@) is Err {
        Err(validate_identifier_spec(schema, "schema"@)->Err_0)
    } else if validate_identifier_spec(table, "table"@) is Err {
        Err(validate_identifier_spec(table, "table"@)->Err_0)
    } else if limit < 1 {
        Ok(1)
    } else if limit > 100 {
        Ok(100)
    } else {
        Ok(limit)
    }
}

pub fn sample_limit(source: &str, schema: &str, table: &str, query: &SampleQuery) -> (r: Result<u32, String>)
    ensures
        match r {
            Ok(l) => sample_limit_spec(source@, schema@, table@, query.limit) == Ok::<u32, Seq<char>>(l),
            Err(e) => sample_limit_spec(source@, schema@, table@, query.limit) == Err::<u32, Seq<char>>(
                e@,
            ),
        },
{
    match validate_identifier(source, "source name") {
        Err(e) => return Err(e),
        Ok(()) => {},
    }
    match validate_identifier(schema, "schema") {
        Err(e) => return Err(e),
        Ok(()) => {},
    }
    match validate_identifier(table, "table") {
        Err(e) => return Err(e),
        Ok(()) => {},
    }
    if query.limit < 1 {
        Ok(1)
    } else if query.limit > 100 {
        Ok(100)
    } else {
        Ok(query.limit)
    }
}

/// A sample filter: a valid column with a value, or neither.
pub open spec fn sample_filter_spec(column: Option<Seq<char>>, value: Option<Seq<char>>) -> Result<
    Option<(Seq<char>, Seq<char>)>,
    Seq<char>,
> {
    match (column, value) {
        (None, None) => Ok(None),
        (Some(c), Some(v)) => match validate_identifier_spec(c, "filter column"@) {
            Err(e) => Err(e),
            Ok(()) => Ok(Some((c, v))),
        },
        _ => Err("filterColumn and filterValue must be provided together"@),
    }
}

pub fn sample_filter(query: &SampleQuery) -> (r: Result<Option<(String, String)>, String>)
    ensures
        match r {
            Ok(f) => sample_filter_spec(crate::options::opt_str(query.filter_column), crate::options::opt_str(
                query.filter_value,
            )) == Ok::<Option<(Seq<char>, Seq<char>)>, Seq<char>>(
                match f {
                    Some((c, v)) => Some((c@, v@)),
                    None => None,
                },
            ),
            Err(e) => sample_filter_spec(crate::options::opt_str(query.filter_column), crate::options::opt_str(
                query.filter_value,
            )) == Err::<Option<(Seq<char>, Seq<char>)>, Seq<char>>(e@),
        },
{
    match (&query.filter_column, &query.filter_value) {
        (None, None) => Ok(None),
        (Some(c), Some(v)) => match validate_identifier(c.as_str(), "filter column") {
            Err(e) => Err(e),
            Ok(()) => Ok(Some((c.clone(), v.clone()))),
        },
        _ => Err(crate::text::str_to_string("filterColumn and filterValue must be provided together")),
    }
}

/// The sample query and the query that returns its rows as JSON.
pub fn sample_statement(schema: &str, table: &str, limit: u32, filter: Option<(&str, &str)>) -> (r: Result<
    (String, String),
    String,
>)
    ensures
        ({
            let f = match filter {
                Some((c, v)) => Some((c@, v@)),
                None => None,
            };
            match r {
                Ok((sql, wrapped)) => crate::control::sql::sample_sql_spec(schema@, table@, limit, f) == Ok::<
                    Seq<char>,
                    Seq<char>,
                >(sql@) && wrapped@ == "SELECT to_jsonb(sample_row) FROM ("@ + sql@ + ") AS sample_row"@,
                Err(e) => crate::control::sql::sample_sql_spec(schema@, table@, limit, f) == Err::<
                    Seq<char>,
                    Seq<char>,
                >(e@),
            }
        }),
{
    let sql = match crate::control::sql::sample_sql(schema, table, limit, filter) {
        Ok(s) => s,
        Err(e) => return Err(e),
    };
    let mut w = chars_of("SELECT to_jsonb(sample_row) FROM (");
    append_str(&mut w, sql.as_str());
    append_str(&mut w, ") AS sample_row");
    Ok((sql, string_of(&w)))
}

// ---------------------------------------------------------------------------
// Service settings
// ---------------------------------------------------------------------------

/// The service's settings, read from its environment by the caller.
pub struct ServiceSettings {
    pub database_url: String,
    pub admin_token: String,
    pub cookie_secure: bool,
    pub pool_max_size: u64,
}

/// A required setting: present and not blank.
pub open spec fn required_spec(name: Seq<char>, value: Option<Seq<char>>) -> Result<Seq<char>, Seq<char>> {
    match value {
        Some(v) => if crate::text::trim(v).len() > 0 {
            Ok(v)
        } else {
            Err(name + " is required"@)
        },
        None => Err(name + " is required"@),
    }
}

pub fn required_setting(name: &str, value: Option<String>) -> (r: Result<String, String>)
    ensures
        match r {
            Ok(v) => required_spec(name@, crate::options::opt_str(value)) == Ok::<Seq<char>, Seq<char>>(v@),
            Err(e) => required_spec(name@, crate::options::opt_str(value)) == Err::<Seq<char>, Seq<char>>(e@),
        },
{
    match value {
        Some(v) => if !crate::text::is_blank(v.as_str()) {
            Ok(v)
        } else {
            let mut m = chars_of(name);
            append_str(&mut m, " is required");
            Err(string_of(&m))
        },
        None => {
            let mut m = chars_of(name);
            append_str(&mut m, " is required");
            Err(string_of(&m))
        },
    }
}

/// A boolean setting: `true`, `1`, `yes`, `on` or `false`, `0`, `no`, `off`.
pub open spec fn optional_bool_spec(name: Seq<char>, value: Option<Seq<char>>, default: bool) -> Result<bool, Seq<char>> {
    match value {
        None => Ok(default),
        Some(v) => if v == "true"@ || v == "1"@ || v == "yes"@ || v == "on"@ {
            Ok(true)
        } else if v == "false"@ || v == "0"@ || v == "no"@ || v == "off"@ {
            Ok(false)
        } else {
            Err(name + " must be true or false"@)
        },
    }
}

pub fn optional_bool(name: &str, value: Option<&str>, default: bool) -> (r: Result<bool, String>)
    ensures
        match r {
            Ok(b) => optional_bool_spec(
                name@,
                match value {
                    Some(v) => Some(v@),
                    None => None,
                },
                default,
            ) == Ok::<bool, Seq<char>>(b),
            Err(e) => optional_bool_spec(
                name@,
                match value {
                    Some(v) => Some(v@),
                    None => None,
                },
                default,
            ) == Err::<bool, Seq<char>>(e@),
        },
{
    match value {
        None => Ok(default),
        Some(v) => {
            if crate::text::str_eq(v, "true") || crate::text::str_eq(v, "1") || crate::text::str_eq(v, "yes")
                || crate::text::str_eq(v, "on") {
                Ok(true)
            } else if crate::text::str_eq(v, "false") || crate::text::str_eq(v, "0") || crate::text::str_eq(
                v,
                "no",
            ) || crate::text::str_eq(v, "off") {
                Ok(false)
            } else {
                let mut m = chars_of(name);
                append_str(&mut m, " must be true or false");
                Err(string_of(&m))
            }
        },
    }
}

/// The settings the service starts with: a database URL, an admin token of
/// at least 16 bytes, secure cookies unless turned off, and 1 to 64 pooled
/// connections (8 by default).
pub open spec fn settings_spec(
    database_url: Option<Seq<char>>,
    admin_token: Option<Seq<char>>,
    cookie_secure: Option<Seq<char>>,
    pool_size: Option<Seq<char>>,
) -> Result<(Seq<char>, Seq<char>, bool, u64), Seq<char>> {
    match required_spec("DATABASE_URL"@, database_url) {
        Err(e) => Err(e),
        Ok(url) => match required_spec("OPENAPI_FDW_ADMIN_TOKEN"@, admin_token) {
            Err(e) => Err(e),
            Ok(token) => if crate::control::model::byte_len(token) < 16 {
                Err("OPENAPI_FDW_ADMIN_TOKEN must contain at least 16 characters"@)
            } else {
                match optional_bool_spec("OPENAPI_FDW_COOKIE_SECURE"@, cookie_secure, true) {
                    Err(e) => Err(e),
                    Ok(secure) => {
                        let raw = match pool_size {
                            Some(p) => p,
                            None => "8"@,
                        };
                        match crate::text::parse_u64(raw) {
                            Some(n) => if 1 <= n && n <= 64 {
                                Ok((url, token, secure, n))
                            } else {
                                Err("OPENAPI_FDW_POOL_SIZE must be between 1 and 64"@)
                            },
                            None => Err("OPENAPI_FDW_POOL_SIZE must be between 1 and 64"@),
                        }
                    },
                }
            },
        },
    }
}

/// `Settings::from_environment` after the environment is read (the listen
/// address is parsed by the caller).
pub fn settings_from_values(
    database_url: Option<String>,
    admin_token: Option<String>,
    cookie_secure: Option<&str>,
    pool_size: Option<&str>,
) -> (r: Result<ServiceSettings, String>)
    ensures
        match r {
            Ok(s) => settings_spec(
                crate::options::opt_str(database_url),
                crate::options::opt_str(admin_token),
                match cookie_secure {
                    Some(v) => Some(v@),
                    None => None,
                },
                match pool_size {
                    Some(v) => Some(v@),
                    None => None,
                },
            ) == Ok::<(Seq<char>, Seq<char>, bool, u64), Seq<char>>(
                (s.database_url@, s.admin_token@, s.cookie_secure, s.pool_max_size),
            ),
            Err(e) => settings_spec(
                crate::options::opt_str(database_url),
                crate::options::opt_str(admin_token),
                match cookie_secure {
                    Some(v) => Some(v@),
                    None => None,
                },
                match pool_size {
                    Some(v) => Some(v@),
                    None => None,
                },
            ) == Err::<(Seq<char>, Seq<char>, bool, u64), Seq<char>>(e@),
        },
{
    let url = match required_setting("DATABASE_URL", database_url) {
        Ok(u) => u,
        Err(e) => return Err(e),
    };
    let token = match required_setting("OPENAPI_FDW_ADMIN_TOKEN", admin_token) {
        Ok(t) => t,
        Err(e) => return Err(e),
    };
    if crate::control::model::byte_length(token.as_str()) < 16 {
        return Err(crate::text::str_to_string("OPENAPI_FDW_ADMIN_TOKEN must contain at least 16 characters"));
    }
    let secure = match optional_bool("OPENAPI_FDW_COOKIE_SECURE", cookie_secure, true) {
        Ok(b) => b,
        Err(e) => return Err(e),
    };
    let raw = match pool_size {
        Some(p) => chars_of(p),
        None => chars_of("8"),
    };
    match crate::text::parse_u64_exec(&raw) {
        Some(n) => if 1 <= n && n <= 64 {
            Ok(ServiceSettings { database_url: url, admin_token: token, cookie_secure: secure, pool_max_size: n })
        } else {
            Err(crate::text::str_to_string("OPENAPI_FDW_POOL_SIZE must be between 1 and 64"))
        },
        None => Err(crate::text::str_to_string("OPENAPI_FDW_POOL_SIZE must be between 1 and 64")),
    }
}

} // verus!
