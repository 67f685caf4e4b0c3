//! What the server learns of its tables and agents, and what it forgets.

use crate::server::agent_store;
use crate::server::agent_store::AgentModel;
use crate::server::metadata_store;
use crate::server::metadata_store::{FieldRow, FileRange, StoreModel, TableRow, TombstoneRow};
use vstd::prelude::*;

verus! {

/// New rows of a table are added to those that were counted, and its range of time becomes
/// the least that holds both. When it was told is noted. What else is known of the table
/// stays.
pub proof fn counting_adds_up(
    row: TableRow,
    time_min: i64,
    time_max: i64,
    row_count: usize,
    defs: Seq<(Seq<char>, Seq<char>)>,
    tag_keys: Seq<Seq<char>>,
    now_ms: i64,
)
    requires
        row_count <= i64::MAX,
        i64::MIN <= row.total_rows + row_count <= i64::MAX,
    ensures
        ({
            let after = metadata_store::counted(
                row,
                time_min,
                time_max,
                row_count,
                defs,
                tag_keys,
                now_ms,
            );
            &&& after.total_rows == row.total_rows + row_count
            &&& after.time_min is Some && (after.time_min->0 == time_min || after.time_min
                == row.time_min)
            &&& after.time_max is Some && (after.time_max->0 == time_max || after.time_max
                == row.time_max)
            &&& after.time_min->0 <= time_min && (row.time_min is Some ==> after.time_min->0
                <= row.time_min->0)
            &&& after.time_max->0 >= time_max && (row.time_max is Some ==> after.time_max->0
                >= row.time_max->0)
            &&& after.updated_at == Some(now_ms)
            &&& after.db == row.db
            &&& after.table == row.table
            &&& after.sources == row.sources
            &&& learned(row.fields, defs, tag_keys, after.fields)
        }),
{
    fields_are_learned(row.fields, defs, tag_keys);
}

/// An agent that tells of a schema becomes a source of the table where it is registered. The
/// rows that were counted, and the other sources, stay.
pub proof fn schema_report_is_merged(
    row: TableRow,
    agent_id: Seq<char>,
    agent_known: bool,
    tag_keys: Seq<Seq<char>>,
    defs: Seq<(Seq<char>, Seq<char>)>,
)
    ensures
        ({
            let after = metadata_store::merged(row, agent_id, agent_known, tag_keys, defs);
            &&& row.sources.is_prefix_of(after.sources)
            &&& forall|s: Seq<char>| #[trigger]
                after.sources.contains(s) <==> row.sources.contains(s) || agent_known && s
                    == agent_id
            &&& row.sources.no_duplicates() ==> after.sources.no_duplicates()
            &&& after.time_min == row.time_min
            &&& after.time_max == row.time_max
            &&& after.total_rows == row.total_rows
            &&& after.updated_at == row.updated_at
            &&& after.db == row.db
            &&& after.table == row.table
            &&& learned(row.fields, defs, tag_keys, after.fields)
        }),
{
    fields_are_learned(row.fields, defs, tag_keys);
    names_are_noted_once(row.sources, agent_id);
}

/// A name that is noted is there, once, behind those that were there.
pub proof fn names_are_noted_once(names: Seq<Seq<char>>, name: Seq<char>)
    ensures
        ({
            let after = metadata_store::with_name(names, name);
            &&& names.is_prefix_of(after)
            &&& forall|s: Seq<char>| #[trigger]
                after.contains(s) <==> names.contains(s) || s == name
            &&& names.no_duplicates() ==> after.no_duplicates()
        }),
{
    let after = metadata_store::with_name(names, name);
    assert forall|s: Seq<char>| #[trigger] after.contains(s) <==> names.contains(s) || s
        == name by {
        if names.contains(s) {
            let i = choose|i: int| 0 <= i < names.len() && names[i] == s;
            assert(after[i] == s);
        }
        if !names.contains(name) {
            assert(after[names.len() as int] == name);
        }
    }
    if names.no_duplicates() && !names.contains(name) {
        assert forall|i: int, j: int|
            0 <= i < after.len() && 0 <= j < after.len() && i != j implies after[i] != after[j] by {
            if i < names.len() && j < names.len() {
                assert(names[i] != names[j]);
            } else if i < names.len() {
                assert(names.contains(names[i]));
            } else {
                assert(names.contains(names[j]));
            }
        }
    }
}

/// Whether a field is known, as a tag or not.
pub open spec fn is_known(fields: Seq<FieldRow>, name: Seq<char>, is_tag: bool) -> bool {
    exists|i: int|
        0 <= i < fields.len() && (#[trigger] fields[i]).name == name && fields[i].is_tag == is_tag
}

/// Whether a field is one of those told: one of the fields with its type, or one of the tags.
pub open spec fn is_told(
    defs: Seq<(Seq<char>, Seq<char>)>,
    tag_keys: Seq<Seq<char>>,
    field: FieldRow,
) -> bool {
    if field.is_tag {
        tag_keys.contains(field.name) && field.value_type == "String"@
    } else {
        defs.contains((field.name, field.value_type))
    }
}

/// Whether `after` are the fields that are known once some fields and tags were told: what
/// was known stays in front, all that was told is known, and nothing else is new.
pub open spec fn learned(
    before: Seq<FieldRow>,
    defs: Seq<(Seq<char>, Seq<char>)>,
    tag_keys: Seq<Seq<char>>,
    after: Seq<FieldRow>,
) -> bool {
    &&& before.is_prefix_of(after)
    &&& forall|k: int| 0 <= k < defs.len() ==> is_known(after, (#[trigger] defs[k]).0, false)
    &&& forall|k: int| 0 <= k < tag_keys.len() ==> is_known(after, #[trigger] tag_keys[k], true)
    &&& forall|i: int|
        before.len() <= i < after.len() ==> is_told(defs, tag_keys, #[trigger] after[i])
    &&& forall|i: int|
        before.len() <= i < after.len() ==> !is_known(
            after.take(i),
            (#[trigger] after[i]).name,
            after[i].is_tag,
        )
}

proof fn lemma_known_more(fields: Seq<FieldRow>, more: Seq<FieldRow>, name: Seq<char>, is_tag: bool)
    requires
        fields.is_prefix_of(more),
        is_known(fields, name, is_tag),
    ensures
        is_known(more, name, is_tag),
{
    let i = choose|i: int|
        0 <= i < fields.len() && (#[trigger] fields[i]).name == name && fields[i].is_tag == is_tag;
    assert(more[i] == fields[i]);
}

proof fn lemma_fields_learned(fields: Seq<FieldRow>, defs: Seq<(Seq<char>, Seq<char>)>)
    ensures
        learned(fields, defs, Seq::empty(), metadata_store::with_fields(fields, defs)),
    decreases defs.len(),
{
    let after = metadata_store::with_fields(fields, defs);
    if defs.len() > 0 {
        let front = defs.drop_last();
        let before = metadata_store::with_fields(fields, front);
        let name = defs.last().0;
        lemma_fields_learned(fields, front);
        assert(before.is_prefix_of(after));
        assert(is_known(after, name, false)) by {
            if metadata_store::has_field(before, name, false) {
                let i = choose|i: int|
                    0 <= i < before.len() && (#[trigger] before[i]).name == name && before[i].is_tag
                        == false;
                assert(after[i] == before[i]);
            } else {
                assert(after[before.len() as int].name == name);
            }
        }
        assert forall|k: int| 0 <= k < defs.len() implies is_known(
            after,
            (#[trigger] defs[k]).0,
            false,
        ) by {
            if k < front.len() {
                assert(front[k] == defs[k]);
                lemma_known_more(before, after, defs[k].0, false);
            }
        }
        assert forall|i: int| fields.len() <= i < after.len() implies is_told(
            defs,
            Seq::empty(),
            #[trigger] after[i],
        ) by {
            if i < before.len() {
                assert(before[i] == after[i]);
                let field = before[i];
                if !field.is_tag {
                    let k = choose|k: int|
                        0 <= k < front.len() && front[k] == (field.name, field.value_type);
                    assert(defs[k] == (field.name, field.value_type));
                }
            } else {
                assert(defs[defs.len() - 1] == (after[i].name, after[i].value_type));
            }
        }
        assert forall|i: int| fields.len() <= i < after.len() implies !is_known(
            after.take(i),
            (#[trigger] after[i]).name,
            after[i].is_tag,
        ) by {
            if i < before.len() {
                assert(before[i] == after[i]);
                assert(before.take(i) =~= after.take(i));
            } else {
                assert(after.take(i) =~= before);
            }
        }
    }
}

proof fn lemma_tags_learned(
    fields: Seq<FieldRow>,
    defs: Seq<(Seq<char>, Seq<char>)>,
    keys: Seq<Seq<char>>,
)
    ensures
        learned(
            fields,
            defs,
            keys,
            metadata_store::with_tags(metadata_store::with_fields(fields, defs), keys),
        ),
    decreases keys.len(),
{
    let told = metadata_store::with_fields(fields, defs);
    let after = metadata_store::with_tags(told, keys);
    if keys.len() == 0 {
        lemma_fields_learned(fields, defs);
        assert(keys =~= Seq::<Seq<char>>::empty());
    } else {
        let front = keys.drop_last();
        let before = metadata_store::with_tags(told, front);
        let name = keys.last();
        lemma_tags_learned(fields, defs, front);
        assert(before.is_prefix_of(after));
        assert(is_known(after, name, true)) by {
            if metadata_store::has_field(before, name, true) {
                let i = choose|i: int|
                    0 <= i < before.len() && (#[trigger] before[i]).name == name && before[i].is_tag
                        == true;
                assert(after[i] == before[i]);
            } else {
                assert(after[before.len() as int].name == name);
            }
        }
        assert forall|k: int| 0 <= k < defs.len() implies is_known(
            after,
            (#[trigger] defs[k]).0,
            false,
        ) by {
            lemma_known_more(before, after, defs[k].0, false);
        }
        assert forall|k: int| 0 <= k < keys.len() implies is_known(
            after,
            #[trigger] keys[k],
            true,
        ) by {
            if k < front.len() {
                assert(front[k] == keys[k]);
                lemma_known_more(before, after, keys[k], true);
            }
        }
        assert forall|i: int| fields.len() <= i < after.len() implies is_told(
            defs,
            keys,
            #[trigger] after[i],
        ) by {
            if i < before.len() {
                assert(before[i] == after[i]);
                if before[i].is_tag {
                    let k = choose|k: int| 0 <= k < front.len() && front[k] == before[i].name;
                    assert(keys[k] == before[i].name);
                }
            } else {
                assert(keys[keys.len() - 1] == after[i].name);
            }
        }
        assert forall|i: int| fields.len() <= i < after.len() implies !is_known(
            after.take(i),
            (#[trigger] after[i]).name,
            after[i].is_tag,
        ) by {
            if i < before.len() {
                assert(before[i] == after[i]);
                assert(before.take(i) =~= after.take(i));
            } else {
                assert(after.take(i) =~= before);
            }
        }
    }
}

/// All fields and tags that are told of a table are known from then on, each once, and with
/// the type that was told first; nothing else becomes known, and nothing is forgotten.
pub proof fn fields_are_learned(
    fields: Seq<FieldRow>,
    defs: Seq<(Seq<char>, Seq<char>)>,
    tag_keys: Seq<Seq<char>>,
)
    ensures
        learned(
            fields,
            defs,
            tag_keys,
            metadata_store::with_tags(metadata_store::with_fields(fields, defs), tag_keys),
        ),
{
    lemma_tags_learned(fields, defs, tag_keys);
}

/// An agent that is forgotten is no source of a table any more, and every other source stays,
/// in its place.
pub proof fn sources_are_forgotten(names: Seq<Seq<char>>, name: Seq<char>)
    ensures
        metadata_store::without_name(names, name) == names.filter(|n: Seq<char>| n != name),
    decreases names.len(),
{
    reveal(Seq::filter);
    if names.len() > 0 {
        sources_are_forgotten(names.drop_last(), name);
    } else {
        assert(names.filter(|n: Seq<char>| n != name) =~= names);
    }
}

/// The fields of a table are told apart from its tags: each is listed on its own side, and
/// none is left out.
pub proof fn tags_and_fields_are_listed(fields: Seq<FieldRow>)
    ensures
        metadata_store::tag_names(fields) == fields.filter(|f: FieldRow| f.is_tag).map_values(
            |f: FieldRow| f.name,
        ),
        metadata_store::plain_fields(fields) == fields.filter(|f: FieldRow| !f.is_tag).map_values(
            |f: FieldRow| (f.name, f.value_type),
        ),
        metadata_store::tag_names(fields).len() + metadata_store::plain_fields(fields).len()
            == fields.len(),
    decreases fields.len(),
{
    reveal(Seq::filter);
    let is_tag = |f: FieldRow| f.is_tag;
    let is_plain = |f: FieldRow| !f.is_tag;
    let name = |f: FieldRow| f.name;
    let typed = |f: FieldRow| (f.name, f.value_type);
    if fields.len() > 0 {
        let front = fields.drop_last();
        tags_and_fields_are_listed(front);
        if fields.last().is_tag {
            assert(fields.filter(is_tag).map_values(name) =~= front.filter(is_tag).map_values(
                name,
            ).push(fields.last().name));
        } else {
            assert(fields.filter(is_plain).map_values(typed) =~= front.filter(
                is_plain,
            ).map_values(typed).push((fields.last().name, fields.last().value_type)));
        }
    } else {
        assert(fields.filter(is_tag).map_values(name) =~= Seq::<Seq<char>>::empty());
        assert(fields.filter(is_plain).map_values(typed) =~= Seq::<(Seq<char>, Seq<char>)>::empty());
    }
}

/// The tables of a database are all listed, and those of no other.
pub proof fn tables_of_a_database_are_listed(rows: Seq<TableRow>, db: Seq<char>)
    ensures
        metadata_store::table_names(rows, db) == rows.filter(|t: TableRow| t.db == db).map_values(
            |t: TableRow| t.table,
        ),
    decreases rows.len(),
{
    reveal(Seq::filter);
    let of = |t: TableRow| t.db == db;
    let name = |t: TableRow| t.table;
    if rows.len() > 0 {
        let front = rows.drop_last();
        tables_of_a_database_are_listed(front, db);
        if of(rows.last()) {
            assert(rows.filter(of).map_values(name) =~= front.filter(of).map_values(name).push(
                rows.last().table,
            ));
        }
    } else {
        assert(rows.filter(of).map_values(name) =~= Seq::<Seq<char>>::empty());
    }
}

/// What is told of a table is put in its place, or last where the table is new: there are no
/// more tables than before but for a new one, and the others stay where they are.
pub proof fn tables_keep_their_places(s: StoreModel, row: TableRow)
    ensures
        ({
            let after = metadata_store::with_row(s, row);
            let known = metadata_store::row_of(s, row.db, row.table) is Some;
            &&& after.tables.len() == s.tables.len() + (if known {
                0int
            } else {
                1
            })
            &&& forall|i: int|
                0 <= i < s.tables.len() ==> #[trigger] after.tables[i] == s.tables[i]
                    || s.tables[i].db == row.db && s.tables[i].table == row.table
                    && after.tables[i] == row
            &&& after.tombstones == s.tombstones
            &&& forall|d: Seq<char>| #[trigger]
                after.databases.contains(d) <==> s.databases.contains(d) || d == row.db
        }),
{
    metadata_store::lemma_row_position(s.tables, row.db, row.table);
    names_are_noted_once(s.databases, row.db);
}

/// A table is known exactly where some row is its own, and of a table of which nothing is
/// known nothing is told.
pub proof fn rows_are_found(s: StoreModel, db: Seq<char>, table: Seq<char>)
    ensures
        match metadata_store::row_of(s, db, table) {
            Some(row) => row.db == db && row.table == table && s.tables.contains(row)
                && metadata_store::row_or_new(s, db, table) == row
                && metadata_store::table_agents(s, db, table) == row.sources,
            None => {
                let fresh = metadata_store::row_or_new(s, db, table);
                &&& forall|i: int|
                    0 <= i < s.tables.len() ==> (#[trigger] s.tables[i]).db != db
                        || s.tables[i].table != table
                &&& fresh.db == db && fresh.table == table
                &&& fresh.total_rows == 0 && fresh.time_min is None && fresh.time_max is None
                &&& fresh.updated_at is None
                &&& fresh.fields.len() == 0 && fresh.sources.len() == 0
                &&& metadata_store::table_agents(s, db, table).len() == 0
            },
        },
{
    metadata_store::lemma_row_position(s.tables, db, table);
    let i = metadata_store::row_position(s.tables, db, table);
    if i < s.tables.len() {
        assert(s.tables[i].db == db);
    }
}

/// Noting merged files notes these, of this table, and no other.
pub proof fn only_merged_files_are_noted(
    s: StoreModel,
    db: Seq<char>,
    table: Seq<char>,
    names: Seq<Seq<char>>,
    now_ms: i64,
    other_db: Seq<char>,
    other_table: Seq<char>,
    name: Seq<char>,
)
    ensures
        ({
            let noted = metadata_store::with_tombstones(s.tombstones, db, table, names, now_ms);
            let after = StoreModel { tombstones: noted, ..s };
            &&& metadata_store::is_tombstoned(after, other_db, other_table, name)
                <==> metadata_store::is_tombstoned(s, other_db, other_table, name) || other_db
                == db && other_table == table && names.contains(name)
            &&& s.tombstones.is_prefix_of(noted)
            &&& forall|i: int|
                s.tombstones.len() <= i < noted.len() ==> (#[trigger] noted[i]).created_at
                    == now_ms
        }),
{
    let noted = metadata_store::with_tombstones(s.tombstones, db, table, names, now_ms);
    let after = StoreModel { tombstones: noted, ..s };
    if metadata_store::is_tombstoned(s, other_db, other_table, name) {
        let i = choose|i: int|
            0 <= i < s.tombstones.len() && metadata_store::tombstone_for(
                #[trigger] s.tombstones[i],
                other_db,
                other_table,
                name,
            );
        assert(noted[i] == s.tombstones[i]);
    }
    if other_db == db && other_table == table && names.contains(name) {
        metadata_store::merged_files_are_known(s, db, table, names, now_ms, name);
    }
    if metadata_store::is_tombstoned(after, other_db, other_table, name) {
        let i = choose|i: int|
            0 <= i < after.tombstones.len() && metadata_store::tombstone_for(
                #[trigger] after.tombstones[i],
                other_db,
                other_table,
                name,
            );
        if i < s.tombstones.len() {
            assert(s.tombstones[i] == noted[i]);
        } else {
            assert(names[i - s.tombstones.len()] == name);
        }
    }
}

/// A merged file is told by its database, its table and its name, all three of them.
pub proof fn tombstones_tell_one_file(
    s: StoreModel,
    db: Seq<char>,
    table: Seq<char>,
    name: Seq<char>,
)
    ensures
        metadata_store::is_tombstoned(s, db, table, name) <==> exists|i: int|
            0 <= i < s.tombstones.len() && (#[trigger] s.tombstones[i]).db == db
                && s.tombstones[i].table == table && s.tombstones[i].file_name == name,
{
    if metadata_store::is_tombstoned(s, db, table, name) {
        let i = choose|i: int|
            0 <= i < s.tombstones.len() && metadata_store::tombstone_for(
                #[trigger] s.tombstones[i],
                db,
                table,
                name,
            );
        assert(s.tombstones[i].db == db);
    }
    if exists|i: int|
        0 <= i < s.tombstones.len() && (#[trigger] s.tombstones[i]).db == db
            && s.tombstones[i].table == table && s.tombstones[i].file_name == name {
        let i = choose|i: int|
            0 <= i < s.tombstones.len() && (#[trigger] s.tombstones[i]).db == db
                && s.tombstones[i].table == table && s.tombstones[i].file_name == name;
        assert(metadata_store::tombstone_for(s.tombstones[i], db, table, name));
    }
}

/// What is known of the files of a table together: their rows add up, and their range of
/// time is the least that holds those of all.
pub proof fn files_add_up(files: Seq<FileRange>, more: FileRange)
    ensures
        metadata_store::files_rows(Seq::empty()) == 0,
        metadata_store::files_rows(files.push(more)) == metadata_store::files_rows(files)
            + more.row_count,
        files.len() == 0 ==> metadata_store::files_min(files) is None && metadata_store::files_max(
            files,
        ) is None,
        files.len() > 0 ==> {
            let min = metadata_store::files_min(files);
            let max = metadata_store::files_max(files);
            &&& min is Some && max is Some
            &&& forall|i: int|
                0 <= i < files.len() ==> min->0 <= (#[trigger] files[i]).time_min
                    && files[i].time_max <= max->0
            &&& exists|i: int| 0 <= i < files.len() && (#[trigger] files[i]).time_min == min->0
            &&& exists|i: int| 0 <= i < files.len() && (#[trigger] files[i]).time_max == max->0
        },
    decreases files.len(),
{
    assert(files.push(more).drop_last() =~= files);
    if files.len() > 0 {
        let front = files.drop_last();
        let min = metadata_store::files_min(files)->0;
        let max = metadata_store::files_max(files)->0;
        files_add_up(front, more);
        assert forall|i: int| 0 <= i < files.len() implies min <= (#[trigger] files[i]).time_min
            && files[i].time_max <= max by {
            if i < front.len() {
                assert(front[i] == files[i]);
            }
        }
        if front.len() == 0 || min == files.last().time_min {
            assert(files[files.len() - 1].time_min == min);
        } else {
            let i = choose|i: int|
                0 <= i < front.len() && (#[trigger] front[i]).time_min
                    == metadata_store::files_min(front)->0;
            assert(files[i].time_min == min);
        }
        if front.len() == 0 || max == files.last().time_max {
            assert(files[files.len() - 1].time_max == max);
        } else {
            let i = choose|i: int|
                0 <= i < front.len() && (#[trigger] front[i]).time_max
                    == metadata_store::files_max(front)->0;
            assert(files[i].time_max == max);
        }
    }
}

/// What is known of an agent that registers is what it told, and that it was seen just now.
/// One that is new begins with the first version and without a configuration.
pub proof fn registration_is_taken(
    before: Option<AgentModel>,
    id: Seq<char>,
    hostname: Seq<char>,
    arch: Seq<char>,
    version: Seq<char>,
    listen_addr: Seq<char>,
    now_ms: i64,
)
    ensures
        ({
            let after = agent_store::registered(
                before,
                id,
                hostname,
                arch,
                version,
                listen_addr,
                now_ms,
            );
            &&& after.id == id
            &&& after.hostname == hostname
            &&& after.arch == Some(arch)
            &&& after.version == Some(version)
            &&& after.listen_addr == Some(listen_addr)
            &&& after.registered_at == now_ms
            &&& after.last_seen_at == Some(now_ms)
            &&& before is None ==> after.config_json is None && after.config_version == 1
                && after.target_config_version == 1
            &&& before matches Some(a) ==> after.config_json == a.config_json
                && after.config_version == a.config_version && after.target_config_version
                == a.target_config_version
        }),
{
}

/// A heartbeat tells that an agent was seen, and the version that it has: the later of the
/// two that were told. Nothing else of the agent changes.
pub proof fn heartbeat_is_taken(a: AgentModel, config_version: i64, now_ms: i64)
    ensures
        ({
            let after = agent_store::seen(a, config_version, now_ms);
            &&& after.last_seen_at == Some(now_ms)
            &&& after.config_version >= a.config_version && after.config_version >= config_version
            &&& after.config_version == a.config_version || after.config_version == config_version
            &&& after.id == a.id && after.hostname == a.hostname && after.arch == a.arch
            &&& after.version == a.version && after.listen_addr == a.listen_addr
            &&& after.config_json == a.config_json && after.registered_at == a.registered_at
            &&& after.target_config_version == a.target_config_version
        }),
{
}

/// A new configuration is kept for its agent under the next version; what the agent has, and
/// all else that is known of it, stays until it tells otherwise.
pub proof fn configuration_is_kept(a: AgentModel, config_json: Seq<char>)
    requires
        a.target_config_version < i64::MAX,
    ensures
        ({
            let after = agent_store::configured(a, config_json);
            &&& after.config_json == Some(config_json)
            &&& after.target_config_version == a.target_config_version + 1
            &&& after.config_version == a.config_version
            &&& after.id == a.id && after.hostname == a.hostname && after.arch == a.arch
            &&& after.version == a.version && after.listen_addr == a.listen_addr
            &&& after.registered_at == a.registered_at && after.last_seen_at == a.last_seen_at
        }),
{
}

/// An agent is found exactly where one of its name is registered; one that registers again
/// keeps its place, and a new one comes last.
pub proof fn agents_keep_their_places(agents: Seq<AgentModel>, agent: AgentModel)
    ensures
        match agent_store::agent_of(agents, agent.id) {
            Some(a) => a.id == agent.id && agents.contains(a) && agent_store::with_agent(
                agents,
                agent,
            ).len() == agents.len(),
            None => (forall|i: int|
                0 <= i < agents.len() ==> (#[trigger] agents[i]).id != agent.id)
                && agent_store::with_agent(agents, agent) == agents.push(agent),
        },
        forall|i: int|
            0 <= i < agents.len() && agents[i].id != agent.id
                ==> #[trigger] agent_store::with_agent(agents, agent)[i] == agents[i],
        agent_store::with_agent(agents, agent).contains(agent),
{
    agent_store::lemma_agent_position(agents, agent.id);
    let i = agent_store::agent_position(agents, agent.id);
    if i < agents.len() {
        assert(agents[i].id == agent.id);
        assert(agent_store::with_agent(agents, agent)[i] == agent);
    } else {
        assert(agent_store::with_agent(agents, agent)[agents.len() as int] == agent);
    }
}

/// Forgetting an agent leaves the others in their order.
pub proof fn others_stay_registered(agents: Seq<AgentModel>, id: Seq<char>)
    requires
        forall|i: int, j: int|
            #![trigger agents[i], agents[j]]
            0 <= i < j < agents.len() ==> agents[i].id != agents[j].id,
    ensures
        agent_store::without_agent(agents, id) == agents.filter(|a: AgentModel| a.id != id),
    decreases agents.len(),
{
    reveal(Seq::filter);
    agent_store::lemma_agent_position(agents, id);
    let p = agent_store::agent_position(agents, id);
    let other = |a: AgentModel| a.id != id;
    if agents.len() > 0 {
        let front = agents.drop_last();
        assert forall|i: int, j: int|
            #![trigger front[i], front[j]]
            0 <= i < j < front.len() implies front[i].id != front[j].id by {
            assert(front[i] == agents[i] && front[j] == agents[j]);
        }
        others_stay_registered(front, id);
        agent_store::lemma_agent_position(front, id);
        let q = agent_store::agent_position(front, id);
        if p < front.len() {
            assert(front[p].id == id);
            if q < p {
                assert(agents[q].id == id);
            }
            assert(q == p) by {
                if p < q {
                    assert(front[p].id != id);
                }
            }
            assert(agents[p].id != agents[agents.len() - 1].id);
            assert(agents.remove(p) =~= front.remove(p).push(agents.last()));
        } else {
            assert(q == front.len()) by {
                if q < front.len() {
                    assert(agents[q].id == id);
                }
            }
            if p < agents.len() {
                assert(agents[p] == agents.last());
                assert(agents.remove(p) =~= front);
            } else {
                assert(agents[agents.len() - 1] == agents.last());
                assert(agents.last().id != id) by {
                    assert(agents[agents.len() - 1].id != id);
                }
                assert(agents =~= front.push(agents.last()));
            }
        }
    } else {
        assert(agents.filter(other) =~= agents);
    }
}

/// Forgetting old tombstones keeps the order of those that stay.
pub proof fn fresh_tombstones_stay_in_order(tombstones: Seq<TombstoneRow>, cutoff_ms: i64)
    ensures
        metadata_store::tombstones_from(tombstones, cutoff_ms) == tombstones.filter(
            |t: TombstoneRow| t.created_at >= cutoff_ms,
        ),
    decreases tombstones.len(),
{
    reveal(Seq::filter);
    if tombstones.len() > 0 {
        fresh_tombstones_stay_in_order(tombstones.drop_last(), cutoff_ms);
    } else {
        assert(tombstones.filter(|t: TombstoneRow| t.created_at >= cutoff_ms) =~= tombstones);
    }
}

} // verus!
