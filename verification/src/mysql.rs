//! The SQL the plugin writes: quoted identifiers, DDL statements, and the
//! statements behind the data-access operations.
use vstd::prelude::*;
use crate::common::{decode_blob_wire_format, decoded_blob, BlobSource};
use crate::config::ends_with;
use crate::models::{
    ColumnDefinition, ForeignKey, Index, Pagination, RoutineParameter, TableColumn, TableInfo,
    TableSchema,
};
use crate::text::{
    boundary_index, boundary_index_exec, byte_len, byte_len_exec, chars_of, contains_text,
    decimal, eq_ignore_ascii_case, find_char, find_first, find_first_exec, find_last,
    find_last_exec, join, join_strings, occurs_at_exec, push_char, push_decimal, same_text,
    same_text_ignoring_ascii_case, starts_with, string_of, trim, trim_bounds, trim_start,
    trim_start_index, upper, upper_chars, views, ascii_upper, is_ascii_text,
};

verus! {

// ---------------------------------------------------------------------------
// Identifiers

/// `name` with every backtick doubled, as MySQL reads it inside backticks.
pub open spec fn escaped(s: Seq<char>) -> Seq<char>
    decreases s.len(),
{
    if s.len() == 0 {
        Seq::<char>::empty()
    } else {
        escaped(s.drop_last()) + (if s.last() == '`' { seq!['`', '`'] } else { seq![s.last()] })
    }
}

/// `name` escaped and enclosed in backticks.
pub open spec fn quoted(s: Seq<char>) -> Seq<char> {
    seq!['`'] + escaped(s) + seq!['`']
}

/// Escapes an identifier for use between backticks: every backtick is doubled.
pub fn escape_identifier(name: &str) -> (r: String)
    ensures
        r@ == escaped(name@),
{
    let v = chars_of(name);
    let mut r = String::new();
    let mut i: usize = 0;
    while i < v.len()
        invariant
            v@ == name@,
            i <= v@.len(),
            r@ == escaped(v@.take(i as int)),
        decreases v@.len() - i,
    {
        let c = v[i];
        if c == '`' {
            push_char(&mut r, '`');
            push_char(&mut r, '`');
        } else {
            push_char(&mut r, c);
        }
        proof {
            let t = v@.take(i + 1);
            assert(t.drop_last() =~= v@.take(i as int));
            assert(t.last() == c);
            if c == '`' {
                assert(r@ =~= escaped(v@.take(i as int)) + seq!['`', '`']);
            } else {
                assert(r@ =~= escaped(v@.take(i as int)) + seq![c]);
            }
        }
        i += 1;
    }
    assert(v@.take(v@.len() as int) =~= v@);
    r
}

fn push_quoted(out: &mut String, name: &str)
    ensures
        final(out)@ == old(out)@ + quoted(name@),
{
    push_char(out, '`');
    let e = escape_identifier(name);
    out.append(e.as_str());
    push_char(out, '`');
    assert(out@ =~= old(out)@ + quoted(name@));
}

/// How MySQL reads the text after an opening backtick: the identifier up to
/// the closing backtick (a doubled backtick standing for one), and what
/// follows that closing backtick; `None` when it is never closed.
pub open spec fn read_quoted(t: Seq<char>) -> Option<(Seq<char>, Seq<char>)>
    decreases t.len(),
{
    if t.len() == 0 {
        None
    } else if t[0] == '`' {
        if t.len() > 1 && t[1] == '`' {
            match read_quoted(t.skip(2)) {
                Some((name, rest)) => Some((seq!['`'] + name, rest)),
                None => None,
            }
        } else {
            Some((Seq::<char>::empty(), t.drop_first()))
        }
    } else {
        match read_quoted(t.drop_first()) {
            Some((name, rest)) => Some((seq![t[0]] + name, rest)),
            None => None,
        }
    }
}

proof fn lemma_escaped_concat(a: Seq<char>, b: Seq<char>)
    ensures
        escaped(a + b) == escaped(a) + escaped(b),
    decreases b.len(),
{
    if b.len() == 0 {
        assert(a + b =~= a);
        assert(escaped(b) =~= Seq::<char>::empty());
        assert(escaped(a) + escaped(b) =~= escaped(a));
    } else {
        lemma_escaped_concat(a, b.drop_last());
        assert((a + b).drop_last() =~= a + b.drop_last());
        assert((a + b).last() == b.last());
    }
}

/// `str::replace("``", "`")`: each doubled backtick, taken from the left,
/// made single again.
pub open spec fn unescaped(t: Seq<char>) -> Seq<char>
    decreases t.len(),
{
    if t.len() == 0 {
        Seq::<char>::empty()
    } else if t.len() > 1 && t[0] == '`' && t[1] == '`' {
        seq!['`'] + unescaped(t.skip(2))
    } else {
        seq![t[0]] + unescaped(t.drop_first())
    }
}

/// How many times `c` occurs in `s`.
pub open spec fn count_char(s: Seq<char>, c: char) -> nat
    decreases s.len(),
{
    if s.len() == 0 {
        0
    } else {
        count_char(s.drop_last(), c) + (if s.last() == c { 1nat } else { 0nat })
    }
}

/// Undoing the doubling of backticks gives the name back, and escaping
/// lengthens a name by its number of backticks.
pub proof fn lemma_escape_laws(name: Seq<char>)
    ensures
        unescaped(escaped(name)) == name,
        escaped(name).len() == name.len() + count_char(name, '`'),
    decreases name.len(),
{
    if name.len() > 0 {
        lemma_escape_laws(name.drop_last());
        let c = name[0];
        let rest = name.drop_first();
        assert(name =~= seq![c] + rest);
        lemma_escaped_concat(seq![c], rest);
        lemma_escape_laws(rest);
        assert(seq![c].drop_last() =~= Seq::<char>::empty());
        assert(escaped(Seq::<char>::empty()) =~= Seq::<char>::empty());
        assert(seq![c].last() == c);
        let e = escaped(name);
        if c == '`' {
            assert(escaped(seq![c]) =~= seq!['`', '`']);
            assert(e.skip(2) =~= escaped(rest));
        } else {
            assert(escaped(seq![c]) =~= seq![c]);
            assert(e.drop_first() =~= escaped(rest));
        }
        assert(unescaped(e) =~= name);
    }
}

/// An escaped identifier between backticks reads back as exactly that
/// identifier, whatever follows the closing backtick (unless that is itself a
/// backtick): no name can end the quoting early.
pub proof fn lemma_quoted_reads_back(name: Seq<char>, rest: Seq<char>)
    requires
        rest.len() == 0 || rest[0] != '`',
    ensures
        read_quoted(escaped(name) + seq!['`'] + rest) == Some((name, rest)),
    decreases name.len(),
{
    let t = escaped(name) + seq!['`'] + rest;
    if name.len() == 0 {
        assert(escaped(name) =~= Seq::<char>::empty());
        assert(t =~= seq!['`'] + rest);
        assert(t.drop_first() =~= rest);
        assert(name =~= Seq::<char>::empty());
    } else {
        let c = name[0];
        let tail = name.drop_first();
        assert(name =~= seq![c] + tail);
        lemma_escaped_concat(seq![c], tail);
        assert(seq![c].drop_last() =~= Seq::<char>::empty());
        assert(escaped(Seq::<char>::empty()) =~= Seq::<char>::empty());
        assert(seq![c].last() == c);
        assert(escaped(seq![c]) == escaped(seq![c].drop_last()) + (if c == '`' { seq!['`', '`'] } else { seq![c] }));
        assert(escaped(seq![c]) =~= (if c == '`' { seq!['`', '`'] } else { seq![c] }));
        lemma_quoted_reads_back(tail, rest);
        let u = escaped(tail) + seq!['`'] + rest;
        if c == '`' {
            assert(t =~= seq!['`', '`'] + u);
            assert(t.skip(2) =~= u);
        } else {
            assert(t =~= seq![c] + u);
            assert(t.drop_first() =~= u);
        }
    }
}

// ---------------------------------------------------------------------------
// Schema statements

/// `text` when `b` holds, nothing otherwise.
pub open spec fn when(b: bool, text: Seq<char>) -> Seq<char> {
    if b { text } else { Seq::<char>::empty() }
}

/// ` DEFAULT <value>` for a column with a default, nothing otherwise.
pub open spec fn default_clause(d: Option<String>) -> Seq<char> {
    match d {
        Some(v) => " DEFAULT "@ + v@,
        None => Seq::<char>::empty(),
    }
}

/// ` NULL` or ` NOT NULL`.
pub open spec fn null_clause(is_nullable: bool) -> Seq<char> {
    if is_nullable { " NULL"@ } else { " NOT NULL"@ }
}

/// A column's definition inside `CREATE TABLE`.
pub open spec fn column_def(c: ColumnDefinition) -> Seq<char> {
    quoted(c.name@) + " "@ + c.data_type@ + when(!c.is_nullable, " NOT NULL"@)
        + when(c.is_auto_increment, " AUTO_INCREMENT"@) + default_clause(c.default_value)
}

/// The quoted names of the primary-key columns, in order.
pub open spec fn pk_names(cols: Seq<ColumnDefinition>) -> Seq<Seq<char>>
    decreases cols.len(),
{
    if cols.len() == 0 {
        Seq::<Seq<char>>::empty()
    } else {
        pk_names(cols.drop_last()) + (if cols.last().is_pk {
            seq![quoted(cols.last().name@)]
        } else {
            Seq::<Seq<char>>::empty()
        })
    }
}

/// The lines inside `CREATE TABLE`: each column's definition, then the
/// primary key when some column belongs to it.
pub open spec fn table_lines(cols: Seq<ColumnDefinition>) -> Seq<Seq<char>> {
    Seq::new(cols.len(), |i: int| column_def(cols[i])) + (if pk_names(cols).len() > 0 {
        seq!["PRIMARY KEY ("@ + join(pk_names(cols), ", "@) + ")"@]
    } else {
        Seq::<Seq<char>>::empty()
    })
}

/// The `CREATE TABLE` statement for `table` with `cols`.
pub open spec fn create_table_sql(table: Seq<char>, cols: Seq<ColumnDefinition>) -> Seq<char> {
    "CREATE TABLE `"@ + escaped(table) + "` (\n  "@ + join(table_lines(cols), ",\n  "@) + "\n)"@
}

/// A result holding exactly one statement, `sql`.
pub open spec fn one_statement(r: Result<Vec<String>, String>, sql: Seq<char>) -> bool {
    r matches Ok(v) && v@.len() == 1 && v@[0]@ == sql
}

fn push_default(out: &mut String, d: &Option<String>)
    ensures
        final(out)@ == old(out)@ + default_clause(*d),
{
    if let Some(v) = d {
        out.append(" DEFAULT ");
        out.append(v.as_str());
    }
    assert(out@ =~= old(out)@ + default_clause(*d));
}

fn quoted_string(name: &str) -> (r: String)
    ensures
        r@ == quoted(name@),
{
    let mut r = String::new();
    push_quoted(&mut r, name);
    assert(r@ =~= quoted(name@));
    r
}

/// The statement that creates `table_name` with `columns`.
pub fn get_create_table_sql(table_name: &str, columns: Vec<ColumnDefinition>) -> (r: Result<Vec<String>, String>)
    ensures
        one_statement(r, create_table_sql(table_name@, columns@)),
{
    let mut column_defs: Vec<String> = Vec::new();
    let mut pk_columns: Vec<String> = Vec::new();
    let n = columns.len();
    let mut i: usize = 0;
    while i < n
        invariant
            n == columns@.len(),
            i <= n,
            views(column_defs@) == Seq::new(i as nat, |k: int| column_def(columns@[k])),
            views(pk_columns@) == pk_names(columns@.take(i as int)),
        decreases n - i,
    {
        let column = &columns[i];
        let mut definition = quoted_string(column.name.as_str());
        push_char(&mut definition, ' ');
        definition.append(column.data_type.as_str());
        if !column.is_nullable {
            definition.append(" NOT NULL");
        }
        if column.is_auto_increment {
            definition.append(" AUTO_INCREMENT");
        }
        push_default(&mut definition, &column.default_value);
        proof {
            assert(" "@ =~= seq![' ']) by { reveal_strlit(" "); }
            assert(definition@ =~= column_def(*column));
        }
        let ghost defs0 = column_defs@;
        let ghost pks0 = pk_columns@;
        column_defs.push(definition);
        if column.is_pk {
            let q = quoted_string(column.name.as_str());
            pk_columns.push(q);
        }
        proof {
            assert(views(column_defs@) =~= views(defs0).push(column_def(columns@[i as int])));
            assert(views(column_defs@) =~= Seq::new((i + 1) as nat, |k: int| column_def(columns@[k])));
            let t = columns@.take(i + 1);
            assert(t.drop_last() =~= columns@.take(i as int));
            assert(t.last() == columns@[i as int]);
            if column.is_pk {
                assert(views(pk_columns@) =~= views(pks0) + seq![quoted(columns@[i as int].name@)]);
            } else {
                assert(views(pk_columns@) =~= views(pks0) + Seq::<Seq<char>>::empty());
            }
        }
        i += 1;
    }
    assert(columns@.take(n as int) =~= columns@);
    if pk_columns.len() > 0 {
        let mut primary = String::from_str("PRIMARY KEY (");
        let list = join_strings(&pk_columns, ", ");
        primary.append(list.as_str());
        primary.append(")");
        let ghost defs0 = column_defs@;
        column_defs.push(primary);
        assert(views(column_defs@) =~= views(defs0).push(primary@));
    }
    proof {
        assert(views(column_defs@) =~= table_lines(columns@));
    }
    let mut sql = String::from_str("CREATE TABLE `");
    let e = escape_identifier(table_name);
    sql.append(e.as_str());
    sql.append("` (\n  ");
    let body = join_strings(&column_defs, ",\n  ");
    sql.append(body.as_str());
    sql.append("\n)");
    let mut out: Vec<String> = Vec::new();
    out.push(sql);
    Ok(out)
}

/// The `ALTER TABLE .. ADD COLUMN` statement for `column`.
pub open spec fn add_column_sql(table: Seq<char>, c: ColumnDefinition) -> Seq<char> {
    "ALTER TABLE `"@ + escaped(table) + "` ADD COLUMN `"@ + escaped(c.name@) + "` "@ + c.data_type@
        + null_clause(c.is_nullable) + when(c.is_auto_increment, " AUTO_INCREMENT"@)
        + default_clause(c.default_value) + when(c.is_pk, " PRIMARY KEY"@)
}

/// The statement that adds `column` to `table`.
pub fn get_add_column_sql(table: &str, column: ColumnDefinition) -> (r: Result<Vec<String>, String>)
    ensures
        one_statement(r, add_column_sql(table@, column)),
{
    let mut sql = String::from_str("ALTER TABLE `");
    let t = escape_identifier(table);
    sql.append(t.as_str());
    sql.append("` ADD COLUMN `");
    let c = escape_identifier(column.name.as_str());
    sql.append(c.as_str());
    sql.append("` ");
    sql.append(column.data_type.as_str());
    if !column.is_nullable {
        sql.append(" NOT NULL");
    } else {
        sql.append(" NULL");
    }
    if column.is_auto_increment {
        sql.append(" AUTO_INCREMENT");
    }
    push_default(&mut sql, &column.default_value);
    if column.is_pk {
        sql.append(" PRIMARY KEY");
    }
    assert(sql@ =~= add_column_sql(table@, column));
    let mut out: Vec<String> = Vec::new();
    out.push(sql);
    Ok(out)
}

/// The statement that changes a column: `CHANGE` when it is renamed,
/// `MODIFY COLUMN` otherwise, followed by the new column's attributes.
pub open spec fn alter_column_sql(table: Seq<char>, old_c: ColumnDefinition, new_c: ColumnDefinition) -> Seq<char> {
    (if old_c.name@ != new_c.name@ {
        "ALTER TABLE `"@ + escaped(table) + "` CHANGE `"@ + escaped(old_c.name@) + "` `"@
            + escaped(new_c.name@) + "` "@ + new_c.data_type@
    } else {
        "ALTER TABLE `"@ + escaped(table) + "` MODIFY COLUMN `"@ + escaped(new_c.name@) + "` "@
            + new_c.data_type@
    }) + null_clause(new_c.is_nullable) + when(new_c.is_auto_increment, " AUTO_INCREMENT"@)
        + default_clause(new_c.default_value)
}

/// The statement that turns `old_column` of `table` into `new_column`.
pub fn get_alter_column_sql(table: &str, old_column: ColumnDefinition, new_column: ColumnDefinition) -> (r: Result<Vec<String>, String>)
    ensures
        one_statement(r, alter_column_sql(table@, old_column, new_column)),
{
    let mut sql = String::from_str("ALTER TABLE `");
    let t = escape_identifier(table);
    sql.append(t.as_str());
    if old_column.name != new_column.name {
        sql.append("` CHANGE `");
        let o = escape_identifier(old_column.name.as_str());
        sql.append(o.as_str());
        sql.append("` `");
    } else {
        sql.append("` MODIFY COLUMN `");
    }
    let n = escape_identifier(new_column.name.as_str());
    sql.append(n.as_str());
    sql.append("` ");
    sql.append(new_column.data_type.as_str());
    if !new_column.is_nullable {
        sql.append(" NOT NULL");
    } else {
        sql.append(" NULL");
    }
    if new_column.is_auto_increment {
        sql.append(" AUTO_INCREMENT");
    }
    push_default(&mut sql, &new_column.default_value);
    assert(sql@ =~= alter_column_sql(table@, old_column, new_column));
    let mut out: Vec<String> = Vec::new();
    out.push(sql);
    Ok(out)
}

/// The `CREATE INDEX` statement.
pub open spec fn create_index_sql(table: Seq<char>, index_name: Seq<char>, columns: Seq<Seq<char>>, is_unique: bool) -> Seq<char> {
    "CREATE "@ + when(is_unique, "UNIQUE "@) + "INDEX `"@ + escaped(index_name) + "` ON `"@
        + escaped(table) + "` ("@ + join(Seq::new(columns.len(), |i: int| quoted(columns[i])), ", "@)
        + ")"@
}

/// The statement that creates index `index_name` on `columns` of `table`.
pub fn get_create_index_sql(table: &str, index_name: &str, columns: Vec<String>, is_unique: bool) -> (r: Result<Vec<String>, String>)
    ensures
        one_statement(r, create_index_sql(table@, index_name@, views(columns@), is_unique)),
{
    let mut quoted_columns: Vec<String> = Vec::new();
    let n = columns.len();
    let mut i: usize = 0;
    while i < n
        invariant
            n == columns@.len(),
            i <= n,
            views(quoted_columns@) == Seq::new(i as nat, |k: int| quoted(columns@[k]@)),
        decreases n - i,
    {
        let q = quoted_string(columns[i].as_str());
        let ghost q0 = quoted_columns@;
        quoted_columns.push(q);
        assert(views(quoted_columns@) =~= views(q0).push(quoted(columns@[i as int]@)));
        assert(views(quoted_columns@) =~= Seq::new((i + 1) as nat, |k: int| quoted(columns@[k]@)));
        i += 1;
    }
    assert(Seq::new(n as nat, |k: int| quoted(columns@[k]@)) =~= Seq::new(views(columns@).len(), |k: int| quoted(views(columns@)[k])));
    let mut sql = String::from_str("CREATE ");
    if is_unique {
        sql.append("UNIQUE ");
    }
    sql.append("INDEX `");
    let e = escape_identifier(index_name);
    sql.append(e.as_str());
    sql.append("` ON `");
    let t = escape_identifier(table);
    sql.append(t.as_str());
    sql.append("` (");
    let list = join_strings(&quoted_columns, ", ");
    sql.append(list.as_str());
    sql.append(")");
    assert(sql@ =~= create_index_sql(table@, index_name@, views(columns@), is_unique));
    let mut out: Vec<String> = Vec::new();
    out.push(sql);
    Ok(out)
}

/// ` ON <event> <action>` when an action is given.
pub open spec fn action_clause(event: Seq<char>, action: Option<&str>) -> Seq<char> {
    match action {
        Some(a) => event + a@,
        None => Seq::<char>::empty(),
    }
}

/// The `ALTER TABLE .. ADD CONSTRAINT .. FOREIGN KEY` statement.
pub open spec fn create_foreign_key_sql(
    table: Seq<char>,
    fk_name: Seq<char>,
    column: Seq<char>,
    ref_table: Seq<char>,
    ref_column: Seq<char>,
    on_delete: Option<&str>,
    on_update: Option<&str>,
) -> Seq<char> {
    "ALTER TABLE `"@ + escaped(table) + "` ADD CONSTRAINT `"@ + escaped(fk_name) + "` FOREIGN KEY (`"@
        + escaped(column) + "`) REFERENCES `"@ + escaped(ref_table) + "` (`"@ + escaped(ref_column) + "`)"@
        + action_clause(" ON DELETE "@, on_delete) + action_clause(" ON UPDATE "@, on_update)
}

/// The referential actions of a foreign key are appended to the bare
/// statement, each on its own: `ON DELETE <action>` when a delete action is
/// given, then `ON UPDATE <action>` when an update action is given, whether or
/// not the other one is; so the statement ends with the update action when
/// there is one, with the delete action when only that one is given, and with
/// the referenced column otherwise.
pub proof fn lemma_foreign_key_actions(
    table: Seq<char>,
    fk_name: Seq<char>,
    column: Seq<char>,
    ref_table: Seq<char>,
    ref_column: Seq<char>,
    on_delete: Option<&str>,
    on_update: Option<&str>,
)
    ensures
        on_update matches Some(a) ==> create_foreign_key_sql(table, fk_name, column, ref_table, ref_column, on_delete, on_update)
            == create_foreign_key_sql(table, fk_name, column, ref_table, ref_column, on_delete, None) + " ON UPDATE "@ + a@,
        on_delete matches Some(d) ==> create_foreign_key_sql(table, fk_name, column, ref_table, ref_column, on_delete, None)
            == create_foreign_key_sql(table, fk_name, column, ref_table, ref_column, None, None) + " ON DELETE "@ + d@,
        on_update matches Some(a) ==> ends_with(
            create_foreign_key_sql(table, fk_name, column, ref_table, ref_column, on_delete, on_update), " ON UPDATE "@ + a@),
        on_update is None ==> (on_delete matches Some(d) ==> ends_with(
            create_foreign_key_sql(table, fk_name, column, ref_table, ref_column, on_delete, on_update), " ON DELETE "@ + d@)),
        on_delete is None && on_update is None ==> ends_with(
            create_foreign_key_sql(table, fk_name, column, ref_table, ref_column, on_delete, on_update), "`)"@),
{
    let base = create_foreign_key_sql(table, fk_name, column, ref_table, ref_column, None, None);
    let with_delete = create_foreign_key_sql(table, fk_name, column, ref_table, ref_column, on_delete, None);
    let full = create_foreign_key_sql(table, fk_name, column, ref_table, ref_column, on_delete, on_update);
    assert(with_delete =~= base + action_clause(" ON DELETE "@, on_delete));
    assert(full =~= with_delete + action_clause(" ON UPDATE "@, on_update));
    match on_update {
        Some(a) => {
            let x = " ON UPDATE "@ + a@;
            assert(full.skip(full.len() - x.len()) =~= x);
        },
        None => {
            match on_delete {
                Some(d) => {
                    let x = " ON DELETE "@ + d@;
                    assert(full =~= base + x);
                    assert(full.skip(full.len() - x.len()) =~= x);
                },
                None => {
                    reveal_strlit("`)");
                    assert(full =~= base);
                    assert(full.skip(full.len() - 2) =~= "`)"@);
                },
            }
        },
    }
}

/// The statement that adds foreign key `fk_name` from `column` of `table` to
/// `ref_column` of `ref_table`, with its optional referential actions.
pub fn get_create_foreign_key_sql(
    table: &str,
    fk_name: &str,
    column: &str,
    ref_table: &str,
    ref_column: &str,
    on_delete: Option<&str>,
    on_update: Option<&str>,
) -> (r: Result<Vec<String>, String>)
    ensures
        one_statement(r, create_foreign_key_sql(table@, fk_name@, column@, ref_table@, ref_column@, on_delete, on_update)),
        r matches Ok(v) && v@.len() == 1,
        on_update matches Some(a) ==> (r matches Ok(v) && ends_with(v@[0]@, " ON UPDATE "@ + a@)),
        on_update is None ==> (on_delete matches Some(d) ==> (r matches Ok(v) && ends_with(v@[0]@, " ON DELETE "@ + d@))),
        on_delete is None && on_update is None ==> (r matches Ok(v) && ends_with(v@[0]@, "`)"@)),
{
    proof { lemma_foreign_key_actions(table@, fk_name@, column@, ref_table@, ref_column@, on_delete, on_update); }
    let mut sql = String::from_str("ALTER TABLE `");
    let a = escape_identifier(table);
    sql.append(a.as_str());
    sql.append("` ADD CONSTRAINT `");
    let b = escape_identifier(fk_name);
    sql.append(b.as_str());
    sql.append("` FOREIGN KEY (`");
    let c = escape_identifier(column);
    sql.append(c.as_str());
    sql.append("`) REFERENCES `");
    let d = escape_identifier(ref_table);
    sql.append(d.as_str());
    sql.append("` (`");
    let e = escape_identifier(ref_column);
    sql.append(e.as_str());
    sql.append("`)");
    if let Some(action) = on_delete {
        sql.append(" ON DELETE ");
        sql.append(action);
    }
    if let Some(action) = on_update {
        sql.append(" ON UPDATE ");
        sql.append(action);
    }
    assert(sql@ =~= create_foreign_key_sql(table@, fk_name@, column@, ref_table@, ref_column@, on_delete, on_update));
    let mut out: Vec<String> = Vec::new();
    out.push(sql);
    Ok(out)
}

// ---------------------------------------------------------------------------
// Statements of the data-access operations

/// `SHOW CREATE VIEW` for `view_name`.
pub fn show_create_view_sql(view_name: &str) -> (r: String)
    ensures
        r@ == "SHOW CREATE VIEW `"@ + escaped(view_name@) + "`"@,
{
    let mut sql = String::from_str("SHOW CREATE VIEW `");
    let e = escape_identifier(view_name);
    sql.append(e.as_str());
    sql.append("`");
    sql
}

/// `CREATE VIEW <view_name> AS <definition>`.
pub fn create_view_sql(view_name: &str, definition: &str) -> (r: String)
    ensures
        r@ == "CREATE VIEW `"@ + escaped(view_name@) + "` AS "@ + definition@,
{
    let mut sql = String::from_str("CREATE VIEW `");
    let e = escape_identifier(view_name);
    sql.append(e.as_str());
    sql.append("` AS ");
    sql.append(definition);
    sql
}

/// `ALTER VIEW <view_name> AS <definition>`.
pub fn alter_view_sql(view_name: &str, definition: &str) -> (r: String)
    ensures
        r@ == "ALTER VIEW `"@ + escaped(view_name@) + "` AS "@ + definition@,
{
    let mut sql = String::from_str("ALTER VIEW `");
    let e = escape_identifier(view_name);
    sql.append(e.as_str());
    sql.append("` AS ");
    sql.append(definition);
    sql
}

/// `DROP VIEW IF EXISTS <view_name>`.
pub fn drop_view_sql(view_name: &str) -> (r: String)
    ensures
        r@ == "DROP VIEW IF EXISTS `"@ + escaped(view_name@) + "`"@,
{
    let mut sql = String::from_str("DROP VIEW IF EXISTS `");
    let e = escape_identifier(view_name);
    sql.append(e.as_str());
    sql.append("`");
    sql
}

/// `SHOW CREATE <routine_type> <routine_name>`; the type is written as given.
pub fn show_create_routine_sql(routine_name: &str, routine_type: &str) -> (r: String)
    ensures
        r@ == "SHOW CREATE "@ + routine_type@ + " `"@ + escaped(routine_name@) + "`"@,
{
    let mut sql = String::from_str("SHOW CREATE ");
    sql.append(routine_type);
    sql.append(" `");
    let e = escape_identifier(routine_name);
    sql.append(e.as_str());
    sql.append("`");
    sql
}

/// `DROP INDEX <index_name> ON <table>`.
pub fn drop_index_sql(table: &str, index_name: &str) -> (r: String)
    ensures
        r@ == "DROP INDEX `"@ + escaped(index_name@) + "` ON `"@ + escaped(table@) + "`"@,
{
    let mut sql = String::from_str("DROP INDEX `");
    let e = escape_identifier(index_name);
    sql.append(e.as_str());
    sql.append("` ON `");
    let t = escape_identifier(table);
    sql.append(t.as_str());
    sql.append("`");
    sql
}

/// `ALTER TABLE <table> DROP FOREIGN KEY <fk_name>`.
pub fn drop_foreign_key_sql(table: &str, fk_name: &str) -> (r: String)
    ensures
        r@ == "ALTER TABLE `"@ + escaped(table@) + "` DROP FOREIGN KEY `"@ + escaped(fk_name@) + "`"@,
{
    let mut sql = String::from_str("ALTER TABLE `");
    let t = escape_identifier(table);
    sql.append(t.as_str());
    sql.append("` DROP FOREIGN KEY `");
    let e = escape_identifier(fk_name);
    sql.append(e.as_str());
    sql.append("`");
    sql
}

/// The query that reads column `col_name` of the row of `table` whose `pk_col`
/// is the bound value. The names are put between backticks as given.
pub fn select_column_sql(table: &str, col_name: &str, pk_col: &str) -> (r: String)
    ensures
        r@ == "SELECT `"@ + col_name@ + "` FROM `"@ + table@ + "` WHERE `"@ + pk_col@ + "` = ?"@,
{
    let mut sql = String::from_str("SELECT `");
    sql.append(col_name);
    sql.append("` FROM `");
    sql.append(table);
    sql.append("` WHERE `");
    sql.append(pk_col);
    sql.append("` = ?");
    sql
}

/// The statement that deletes the row of `table` whose `pk_col` is the bound
/// value. The names are put between backticks as given.
pub fn delete_record_sql(table: &str, pk_col: &str) -> (r: String)
    ensures
        r@ == "DELETE FROM `"@ + table@ + "` WHERE `"@ + pk_col@ + "` = ?"@,
{
    let mut sql = String::from_str("DELETE FROM `");
    sql.append(table);
    sql.append("` WHERE `");
    sql.append(pk_col);
    sql.append("` = ?");
    sql
}

/// The start of an update: `UPDATE <table> SET <col_name> = `, names as given.
pub fn update_prefix_sql(table: &str, col_name: &str) -> (r: String)
    ensures
        r@ == "UPDATE `"@ + table@ + "` SET `"@ + col_name@ + "` = "@,
{
    let mut sql = String::from_str("UPDATE `");
    sql.append(table);
    sql.append("` SET `");
    sql.append(col_name);
    sql.append("` = ");
    sql
}

/// The condition of an update: ` WHERE <pk_col> = `, the name as given.
pub fn update_condition_sql(pk_col: &str) -> (r: String)
    ensures
        r@ == " WHERE `"@ + pk_col@ + "` = "@,
{
    let mut sql = String::from_str(" WHERE `");
    sql.append(pk_col);
    sql.append("` = ");
    sql
}

/// The start of an insert: with no columns the whole statement
/// `INSERT INTO <table> () VALUES ()`, otherwise
/// `INSERT INTO <table> (<columns>) VALUES (`, names between backticks as given.
pub fn insert_prefix_sql(table: &str, columns: &Vec<String>) -> (r: String)
    ensures
        columns@.len() == 0 ==> r@ == "INSERT INTO `"@ + table@ + "` () VALUES ()"@,
        columns@.len() > 0 ==> r@ == "INSERT INTO `"@ + table@ + "` ("@
            + join(Seq::new(columns@.len(), |i: int| "`"@ + columns@[i]@ + "`"@), ", "@) + ") VALUES ("@,
{
    let mut sql = String::from_str("INSERT INTO `");
    sql.append(table);
    if columns.len() == 0 {
        sql.append("` () VALUES ()");
        return sql;
    }
    let mut names: Vec<String> = Vec::new();
    let n = columns.len();
    let mut i: usize = 0;
    while i < n
        invariant
            n == columns@.len(),
            i <= n,
            views(names@) == Seq::new(i as nat, |k: int| "`"@ + columns@[k]@ + "`"@),
        decreases n - i,
    {
        let mut q = String::from_str("`");
        q.append(columns[i].as_str());
        q.append("`");
        let ghost n0 = names@;
        names.push(q);
        assert(views(names@) =~= views(n0).push("`"@ + columns@[i as int]@ + "`"@));
        assert(views(names@) =~= Seq::new((i + 1) as nat, |k: int| "`"@ + columns@[k]@ + "`"@));
        i += 1;
    }
    sql.append("` (");
    let list = join_strings(&names, ", ");
    sql.append(list.as_str());
    sql.append(") VALUES (");
    sql
}

// ---------------------------------------------------------------------------
// Catalogue rows

/// A column as `information_schema.columns` describes it: the key `PRI` marks
/// the primary key, `YES` a nullable column, `auto_increment` in the extra
/// field an auto-increment one; such a column has no default, and neither has
/// one whose default is empty or `null` in any case.
pub open spec fn column_from_catalogue(
    name: Seq<char>,
    data_type: Seq<char>,
    column_key: Seq<char>,
    nullable: Seq<char>,
    extra: Seq<char>,
    default_value: Option<String>,
    character_maximum_length: Option<u64>,
    c: TableColumn,
) -> bool {
    let auto = find_first(extra, "auto_increment"@) is Some;
    &&& c.name@ == name
    &&& c.data_type@ == data_type
    &&& c.is_pk == (column_key == "PRI"@)
    &&& c.is_nullable == (nullable == "YES"@)
    &&& c.is_auto_increment == auto
    &&& c.default_value == (if auto {
        None
    } else {
        match default_value {
            Some(v) => if v@.len() > 0 && !eq_ignore_ascii_case(v@, "null"@) { Some(v) } else { None },
            None => None,
        }
    })
    &&& c.character_maximum_length == character_maximum_length
}

proof fn lemma_catalogue_keys()
    ensures
        "PRI"@ != "UNI"@,
        "PRI"@ != "MUL"@,
        "PRI"@.len() == 3,
{
    reveal_strlit("PRI");
    reveal_strlit("UNI");
    reveal_strlit("MUL");
    assert("PRI"@[0] == 'P' && "UNI"@[0] == 'U' && "MUL"@[0] == 'M');
}

/// The primary-key flag of a catalogue column is its key `PRI` and nothing
/// else: a unique (`UNI`), indexed (`MUL`) or unkeyed column is no part of the
/// primary key; the column is nullable exactly when the catalogue says `YES`.
pub proof fn lemma_catalogue_primary_key(
    name: Seq<char>,
    data_type: Seq<char>,
    column_key: Seq<char>,
    nullable: Seq<char>,
    extra: Seq<char>,
    default_value: Option<String>,
    character_maximum_length: Option<u64>,
    c: TableColumn,
)
    requires
        column_from_catalogue(name, data_type, column_key, nullable, extra, default_value, character_maximum_length, c),
    ensures
        c.is_pk <==> column_key =~= "PRI"@,
        column_key =~= "UNI"@ || column_key =~= "MUL"@ || column_key.len() == 0 ==> !c.is_pk,
        c.is_nullable <==> nullable =~= "YES"@,
{
    lemma_catalogue_keys();
}

/// Builds a column from the fields of a catalogue row.
pub fn table_column_from_row(
    name: String,
    data_type: String,
    column_key: &str,
    nullable: &str,
    extra: &str,
    default_value: Option<String>,
    character_maximum_length: Option<u64>,
) -> (c: TableColumn)
    ensures
        column_from_catalogue(name@, data_type@, column_key@, nullable@, extra@, default_value,
            character_maximum_length, c),
        c.is_pk <==> column_key@ =~= "PRI"@,
        column_key@ =~= "UNI"@ || column_key@ =~= "MUL"@ || column_key@.len() == 0 ==> !c.is_pk,
        c.is_nullable <==> nullable@ =~= "YES"@,
{
    proof { lemma_catalogue_keys(); }
    let is_auto_increment = contains_text(extra, "auto_increment");
    let default_value = if is_auto_increment {
        None
    } else {
        match default_value {
            Some(value) => {
                if value.as_str().is_empty() || same_text_ignoring_ascii_case(value.as_str(), "null") {
                    None
                } else {
                    Some(value)
                }
            },
            None => None,
        }
    };
    TableColumn {
        name,
        data_type,
        is_pk: same_text(column_key, "PRI"),
        is_nullable: same_text(nullable, "YES"),
        is_auto_increment,
        default_value,
        character_maximum_length,
    }
}

/// Builds one column of an index from the fields of a statistics row:
/// unique when `NON_UNIQUE` is 0, primary when the index is `PRIMARY`; the
/// position is truncated to 32 bits.
pub fn index_from_row(index_name: String, column_name: String, non_unique: i64, seq_in_index: i64) -> (r: Index)
    ensures
        r.name == index_name,
        r.column_name == column_name,
        r.is_unique == (non_unique == 0),
        r.is_primary == (index_name@ == "PRIMARY"@),
        r.seq_in_index == seq_in_index as i32,
{
    let is_primary = same_text(index_name.as_str(), "PRIMARY");
    Index {
        name: index_name,
        column_name,
        is_unique: non_unique == 0,
        is_primary,
        seq_in_index: seq_in_index as i32,
    }
}

/// The pseudo-parameter that stands for a function's return value: present
/// for a routine of type `FUNCTION` with a non-empty return type, unnamed, of
/// mode `OUT` and position 0.
pub fn function_return_parameter(data_type: String, routine_type: &str) -> (r: Option<RoutineParameter>)
    ensures
        r is Some <==> (routine_type@ == "FUNCTION"@ && data_type@.len() > 0),
        r matches Some(p) ==> p.name@.len() == 0 && p.data_type == data_type && p.mode@ == "OUT"@
            && p.ordinal_position == 0,
{
    if same_text(routine_type, "FUNCTION") && !data_type.as_str().is_empty() {
        Some(RoutineParameter {
            name: String::new(),
            data_type,
            mode: String::from_str("OUT"),
            ordinal_position: 0,
        })
    } else {
        None
    }
}

// ---------------------------------------------------------------------------
// Text values written to a column

/// `value` trimmed and upper-cased.
pub open spec fn shouted(value: Seq<char>) -> Seq<char> {
    upper(trim(value))
}

/// The text reads as WKT geometry: after trimming and upper-casing it starts
/// with one of the geometry constructors and `'('`.
pub open spec fn is_wkt_geometry_spec(value: Seq<char>) -> bool {
    let u = shouted(value);
    ||| starts_with(u, "POINT("@)
    ||| starts_with(u, "LINESTRING("@)
    ||| starts_with(u, "POLYGON("@)
    ||| starts_with(u, "MULTIPOINT("@)
    ||| starts_with(u, "MULTILINESTRING("@)
    ||| starts_with(u, "MULTIPOLYGON("@)
    ||| starts_with(u, "GEOMETRYCOLLECTION("@)
    ||| starts_with(u, "GEOMETRY("@)
}

/// The text reads as a call of a spatial SQL function: after trimming and
/// upper-casing it is an `ST_` name followed somewhere by `'('`, or starts
/// with one of the geometry-from-text/WKB constructors and `'('`.
pub open spec fn is_raw_sql_function_spec(value: Seq<char>) -> bool {
    let u = shouted(value);
    if starts_with(u, "ST_"@) {
        u.contains('(')
    } else {
        ||| starts_with(u, "GEOMFROMTEXT("@)
        ||| starts_with(u, "GEOMFROMWKB("@)
        ||| starts_with(u, "POINTFROMTEXT("@)
        ||| starts_with(u, "POINTFROMWKB("@)
    }
}

/// A text that, trimmed and upper-cased, starts with `GEOMFROMTEXT(`,
/// `GEOMFROMWKB(`, `POINTFROMTEXT(` or `POINTFROMWKB(`, or is an `ST_` name
/// with a `'('`, is a spatial function call and is written as SQL; any other
/// text is not.
pub proof fn lemma_spatial_calls(value: Seq<char>)
    ensures
        starts_with(shouted(value), "GEOMFROMTEXT("@) ==> is_raw_sql_function_spec(value),
        starts_with(shouted(value), "GEOMFROMWKB("@) ==> is_raw_sql_function_spec(value),
        starts_with(shouted(value), "POINTFROMTEXT("@) ==> is_raw_sql_function_spec(value),
        starts_with(shouted(value), "POINTFROMWKB("@) ==> is_raw_sql_function_spec(value),
        starts_with(shouted(value), "ST_"@) ==> (is_raw_sql_function_spec(value) <==> shouted(value).contains('(')),
        is_raw_sql_function_spec(value) ==> starts_with(shouted(value), "ST_"@)
            || starts_with(shouted(value), "GEOMFROMTEXT("@) || starts_with(shouted(value), "GEOMFROMWKB("@)
            || starts_with(shouted(value), "POINTFROMTEXT("@) || starts_with(shouted(value), "POINTFROMWKB("@),
        starts_with(shouted(value), "GEOMFROMTEXT("@) || starts_with(shouted(value), "GEOMFROMWKB("@)
            || starts_with(shouted(value), "POINTFROMTEXT("@) || starts_with(shouted(value), "POINTFROMWKB("@)
            ==> plain_plan_spec(value) == TextValuePlan::RawSql,
{
    let u = shouted(value);
    reveal_strlit("ST_");
    reveal_strlit("GEOMFROMTEXT(");
    reveal_strlit("GEOMFROMWKB(");
    reveal_strlit("POINTFROMTEXT(");
    reveal_strlit("POINTFROMWKB(");
    if starts_with(u, "ST_"@) {
        assert(u[0] == 'S') by { assert(u.subrange(0, 3)[0] == "ST_"@[0]); }
        if starts_with(u, "GEOMFROMTEXT("@) { assert(u.subrange(0, 13)[0] == 'G'); }
        if starts_with(u, "GEOMFROMWKB("@) { assert(u.subrange(0, 12)[0] == 'G'); }
        if starts_with(u, "POINTFROMTEXT("@) { assert(u.subrange(0, 14)[0] == 'P'); }
        if starts_with(u, "POINTFROMWKB("@) { assert(u.subrange(0, 13)[0] == 'P'); }
    }
}

fn shouted_chars(value: &str) -> (u: Vec<char>)
    ensures
        u@ == shouted(value@),
{
    let v = chars_of(value);
    let (lo, hi) = trim_bounds(&v, 0, v.len());
    assert(v@.subrange(0, v@.len() as int) =~= v@);
    upper_chars(&v, lo, hi)
}

fn begins_with(u: &Vec<char>, prefix: &str) -> (b: bool)
    ensures
        b == starts_with(u@, prefix@),
{
    let p = chars_of(prefix);
    occurs_at_exec(u, &p, 0)
}

/// Whether `value` reads as WKT geometry.
pub fn is_wkt_geometry(value: &str) -> (b: bool)
    ensures
        b == is_wkt_geometry_spec(value@),
{
    let u = shouted_chars(value);
    begins_with(&u, "POINT(") || begins_with(&u, "LINESTRING(") || begins_with(&u, "POLYGON(")
        || begins_with(&u, "MULTIPOINT(") || begins_with(&u, "MULTILINESTRING(")
        || begins_with(&u, "MULTIPOLYGON(") || begins_with(&u, "GEOMETRYCOLLECTION(")
        || begins_with(&u, "GEOMETRY(")
}

/// Whether `value` reads as a call of a spatial SQL function.
pub fn is_raw_sql_function(value: &str) -> (b: bool)
    ensures
        b == is_raw_sql_function_spec(value@),
        starts_with(shouted(value@), "GEOMFROMTEXT("@) ==> b,
        starts_with(shouted(value@), "GEOMFROMWKB("@) ==> b,
        starts_with(shouted(value@), "POINTFROMTEXT("@) ==> b,
        starts_with(shouted(value@), "POINTFROMWKB("@) ==> b,
        starts_with(shouted(value@), "ST_"@) ==> (b <==> shouted(value@).contains('(')),
        b ==> starts_with(shouted(value@), "ST_"@) || starts_with(shouted(value@), "GEOMFROMTEXT("@)
            || starts_with(shouted(value@), "GEOMFROMWKB("@) || starts_with(shouted(value@), "POINTFROMTEXT("@)
            || starts_with(shouted(value@), "POINTFROMWKB("@),
{
    proof { lemma_spatial_calls(value@); }
    let u = shouted_chars(value);
    if begins_with(&u, "ST_") {
        let found = find_char(&u, 0, u.len(), '(');
        proof {
            match found {
                Some(i) => { assert(u@[i as int] == '('); },
                None => {
                    if u@.contains('(') {
                        let j = choose|j: int| 0 <= j < u@.len() && u@[j] == '(';
                        assert(u@[j] != '(');
                    }
                },
            }
        }
        return found.is_some();
    }
    begins_with(&u, "GEOMFROMTEXT(") || begins_with(&u, "GEOMFROMWKB(")
        || begins_with(&u, "POINTFROMTEXT(") || begins_with(&u, "POINTFROMWKB(")
}

/// How a text value is written into a statement.
pub enum TextValuePlan {
    /// The keyword `DEFAULT`.
    UseDefault,
    /// The bytes of a BLOB wire value, bound as a parameter (those of a file
    /// reference still to be read; when that read fails the value is written
    /// as `plain_text_plan` says).
    Blob(BlobSource),
    /// The text itself, as SQL.
    RawSql,
    /// `ST_GeomFromText(?)` with the text bound.
    Geometry,
    /// The text bound as a parameter.
    Plain,
}

/// The plan for a text that is neither a default marker nor a BLOB value.
pub open spec fn plain_plan_spec(value: Seq<char>) -> TextValuePlan {
    if is_raw_sql_function_spec(value) {
        TextValuePlan::RawSql
    } else if is_wkt_geometry_spec(value) {
        TextValuePlan::Geometry
    } else {
        TextValuePlan::Plain
    }
}

/// The plan for a text that is neither a default marker nor a BLOB value:
/// spatial calls are written as SQL, WKT goes through `ST_GeomFromText`, any
/// other text is bound.
pub fn plain_text_plan(value: &str) -> (r: TextValuePlan)
    ensures
        r == plain_plan_spec(value@),
        starts_with(shouted(value@), "GEOMFROMTEXT("@) || starts_with(shouted(value@), "GEOMFROMWKB("@)
            || starts_with(shouted(value@), "POINTFROMTEXT("@) || starts_with(shouted(value@), "POINTFROMWKB("@)
            ==> r is RawSql,
{
    proof { lemma_spatial_calls(value@); }
    if is_raw_sql_function(value) {
        TextValuePlan::RawSql
    } else if is_wkt_geometry(value) {
        TextValuePlan::Geometry
    } else {
        TextValuePlan::Plain
    }
}

/// How a text value is written: in an update (`allow_default`) the marker
/// `__USE_DEFAULT__` means the column default; a BLOB wire value is bound as
/// bytes; otherwise as `plain_text_plan` says.
pub fn text_value_plan(value: &str, max_blob_size: u64, allow_default: bool) -> (r: TextValuePlan)
    ensures
        allow_default && value@ == "__USE_DEFAULT__"@ ==> r is UseDefault,
        !(allow_default && value@ == "__USE_DEFAULT__"@) ==> match decoded_blob(value@, max_blob_size) {
            Some(b) => r matches TextValuePlan::Blob(x) && x@ == b,
            None => r == plain_plan_spec(value@),
        },
        !(allow_default && value@ == "__USE_DEFAULT__"@) && decoded_blob(value@, max_blob_size) is None && (
            starts_with(shouted(value@), "GEOMFROMTEXT("@) || starts_with(shouted(value@), "GEOMFROMWKB("@)
            || starts_with(shouted(value@), "POINTFROMTEXT("@) || starts_with(shouted(value@), "POINTFROMWKB("@))
            ==> r is RawSql,
{
    proof { lemma_spatial_calls(value@); }
    if allow_default && same_text(value, "__USE_DEFAULT__") {
        return TextValuePlan::UseDefault;
    }
    match decode_blob_wire_format(value, max_blob_size) {
        Some(b) => TextValuePlan::Blob(b),
        None => plain_text_plan(value),
    }
}

// ---------------------------------------------------------------------------
// Row statements with values

/// How one value goes into a row statement.
#[derive(Clone, Copy, PartialEq, Eq, Structural)]
pub enum WriteKind {
    /// Bound as a parameter (numbers, booleans, bytes, plain text).
    Bound,
    /// The keyword `NULL`.
    Null,
    /// The keyword `DEFAULT` (in an update).
    Default,
    /// The value's own text, as SQL.
    RawSql,
    /// `ST_GeomFromText(?)` with the text bound.
    Geometry,
    /// `CAST(? AS JSON)` with the value's JSON text bound.
    Json,
}

/// How a text value is written, once any referenced file has been read.
pub fn text_write_kind(plan: &TextValuePlan) -> (k: WriteKind)
    ensures
        k == match plan {
            TextValuePlan::UseDefault => WriteKind::Default,
            TextValuePlan::Blob(_) => WriteKind::Bound,
            TextValuePlan::RawSql => WriteKind::RawSql,
            TextValuePlan::Geometry => WriteKind::Geometry,
            TextValuePlan::Plain => WriteKind::Bound,
        },
{
    match plan {
        TextValuePlan::UseDefault => WriteKind::Default,
        TextValuePlan::Blob(_) => WriteKind::Bound,
        TextValuePlan::RawSql => WriteKind::RawSql,
        TextValuePlan::Geometry => WriteKind::Geometry,
        TextValuePlan::Plain => WriteKind::Bound,
    }
}

/// The kind of a JSON value handed in for a row.
#[derive(Clone, Copy, PartialEq, Eq, Structural)]
pub enum JsonShape {
    Number,
    Text,
    Bool,
    Null,
    /// An object or an array.
    Structured,
}

/// How a JSON value goes into a row statement: numbers and booleans are
/// bound, `null` is written as `NULL`, objects and arrays as JSON, and a text
/// as `text_kind` (its plan) says.
pub fn value_write_kind(shape: JsonShape, text_kind: WriteKind) -> (k: WriteKind)
    ensures
        k == match shape {
            JsonShape::Number => WriteKind::Bound,
            JsonShape::Bool => WriteKind::Bound,
            JsonShape::Text => text_kind,
            JsonShape::Null => WriteKind::Null,
            JsonShape::Structured => WriteKind::Json,
        },
{
    match shape {
        JsonShape::Number => WriteKind::Bound,
        JsonShape::Bool => WriteKind::Bound,
        JsonShape::Text => text_kind,
        JsonShape::Null => WriteKind::Null,
        JsonShape::Structured => WriteKind::Json,
    }
}

/// A key value selects a row only as a number or a text; any other kind is
/// refused with `Unsupported PK type`.
pub fn check_key_shape(shape: JsonShape) -> (r: Result<(), String>)
    ensures
        r is Ok <==> (shape is Number || shape is Text),
        r matches Err(e) ==> e@ == "Unsupported PK type"@,
{
    match shape {
        JsonShape::Number | JsonShape::Text => Ok(()),
        _ => Err(String::from_str("Unsupported PK type")),
    }
}

/// A piece of a row statement: SQL text, a placeholder for value `i` bound
/// as a parameter, or the text of value `i` written as SQL.
pub enum Piece {
    Sql(String),
    Bind(usize),
    ValueSql(usize),
}

/// What a piece stands for.
pub enum PieceV {
    Sql(Seq<char>),
    Bind(nat),
    ValueSql(nat),
}

impl View for Piece {
    type V = PieceV;

    open spec fn view(&self) -> PieceV {
        match self {
            Piece::Sql(s) => PieceV::Sql(s@),
            Piece::Bind(i) => PieceV::Bind(*i as nat),
            Piece::ValueSql(i) => PieceV::ValueSql(*i as nat),
        }
    }
}

/// The pieces of a statement.
pub open spec fn pieces_view(v: Seq<Piece>) -> Seq<PieceV> {
    v.map_values(|p: Piece| p@)
}

/// The pieces that write value `i` of kind `k` on its own.
pub open spec fn value_pieces(k: WriteKind, i: nat) -> Seq<PieceV> {
    match k {
        WriteKind::Bound => seq![PieceV::Bind(i)],
        WriteKind::Null => seq![PieceV::Sql("NULL"@)],
        WriteKind::Default => seq![PieceV::Sql("DEFAULT"@)],
        WriteKind::RawSql => seq![PieceV::ValueSql(i)],
        WriteKind::Geometry => seq![PieceV::Sql("ST_GeomFromText("@), PieceV::Bind(i), PieceV::Sql(")"@)],
        WriteKind::Json => seq![PieceV::Sql("CAST("@), PieceV::Bind(i), PieceV::Sql(" AS JSON)"@)],
    }
}

/// In an insert's value list only bound values and `NULL` are separated by
/// `", "`; raw SQL, geometry and JSON values are written without one.
pub open spec fn takes_separator(k: WriteKind) -> bool {
    k is Bound || k is Null || k is Default
}

/// Some value of `ks` took a separator.
pub open spec fn any_separated(ks: Seq<WriteKind>) -> bool {
    exists|j: int| 0 <= j < ks.len() && takes_separator(#[trigger] ks[j])
}

/// The pieces of value `i` of kind `k` in an insert's value list; `sep` tells
/// whether a value before it took a separator (a `DEFAULT` marker cannot occur
/// in an insert and is bound like text).
pub open spec fn list_value_pieces(k: WriteKind, i: nat, sep: bool) -> Seq<PieceV> {
    let lead = if sep { seq![PieceV::Sql(", "@)] } else { Seq::<PieceV>::empty() };
    match k {
        WriteKind::Bound => lead + seq![PieceV::Bind(i)],
        WriteKind::Default => lead + seq![PieceV::Bind(i)],
        WriteKind::Null => lead + seq![PieceV::Sql("NULL"@)],
        _ => value_pieces(k, i),
    }
}

/// The pieces of an insert's value list.
pub open spec fn list_pieces(ks: Seq<WriteKind>) -> Seq<PieceV>
    decreases ks.len(),
{
    if ks.len() == 0 {
        Seq::<PieceV>::empty()
    } else {
        list_pieces(ks.drop_last()) + list_value_pieces(ks.last(), (ks.len() - 1) as nat, any_separated(ks.drop_last()))
    }
}

fn push_sql(v: &mut Vec<Piece>, s: &str)
    ensures
        pieces_view(final(v)@) == pieces_view(old(v)@).push(PieceV::Sql(s@)),
{
    let ghost v0 = v@;
    v.push(Piece::Sql(String::from_str(s)));
    assert(pieces_view(v@) =~= pieces_view(v0).push(PieceV::Sql(s@)));
}

fn push_bind(v: &mut Vec<Piece>, i: usize)
    ensures
        pieces_view(final(v)@) == pieces_view(old(v)@).push(PieceV::Bind(i as nat)),
{
    let ghost v0 = v@;
    v.push(Piece::Bind(i));
    assert(pieces_view(v@) =~= pieces_view(v0).push(PieceV::Bind(i as nat)));
}

fn push_value_pieces(v: &mut Vec<Piece>, k: WriteKind, i: usize)
    ensures
        pieces_view(final(v)@) == pieces_view(old(v)@) + value_pieces(k, i as nat),
{
    let ghost v0 = pieces_view(v@);
    proof {
        reveal_strlit("NULL");
        reveal_strlit("DEFAULT");
        reveal_strlit("ST_GeomFromText(");
        reveal_strlit(")");
        reveal_strlit("CAST(");
        reveal_strlit(" AS JSON)");
    }
    match k {
        WriteKind::Bound => {
            push_bind(v, i);
            assert(pieces_view(v@) =~= v0 + value_pieces(k, i as nat));
        },
        WriteKind::Null => {
            push_sql(v, "NULL");
            assert(pieces_view(v@) =~= v0 + value_pieces(k, i as nat));
        },
        WriteKind::Default => {
            push_sql(v, "DEFAULT");
            assert(pieces_view(v@) =~= v0 + value_pieces(k, i as nat));
        },
        WriteKind::RawSql => {
            let ghost w = v@;
            v.push(Piece::ValueSql(i));
            assert(pieces_view(v@) =~= pieces_view(w).push(PieceV::ValueSql(i as nat)));
            assert(pieces_view(v@) =~= v0 + value_pieces(k, i as nat));
        },
        WriteKind::Geometry => {
            push_sql(v, "ST_GeomFromText(");
            push_bind(v, i);
            push_sql(v, ")");
            assert(pieces_view(v@) =~= v0 + value_pieces(k, i as nat));
        },
        WriteKind::Json => {
            push_sql(v, "CAST(");
            push_bind(v, i);
            push_sql(v, " AS JSON)");
            assert(pieces_view(v@) =~= v0 + value_pieces(k, i as nat));
        },
    }
}

/// The statement that updates one column of the row whose key column equals
/// the key: value 0 is the new value, written as `kind` says; value 1 is the
/// key, bound.
pub fn update_statement(table: &str, col_name: &str, pk_col: &str, kind: WriteKind) -> (r: Vec<Piece>)
    ensures
        pieces_view(r@) == seq![PieceV::Sql("UPDATE `"@ + table@ + "` SET `"@ + col_name@ + "` = "@)]
            + value_pieces(kind, 0) + seq![PieceV::Sql(" WHERE `"@ + pk_col@ + "` = "@), PieceV::Bind(1)],
{
    let mut r: Vec<Piece> = Vec::new();
    let prefix = update_prefix_sql(table, col_name);
    push_sql(&mut r, prefix.as_str());
    push_value_pieces(&mut r, kind, 0);
    let cond = update_condition_sql(pk_col);
    push_sql(&mut r, cond.as_str());
    push_bind(&mut r, 1);
    assert(pieces_view(r@) =~= seq![PieceV::Sql("UPDATE `"@ + table@ + "` SET `"@ + col_name@ + "` = "@)]
        + value_pieces(kind, 0) + seq![PieceV::Sql(" WHERE `"@ + pk_col@ + "` = "@), PieceV::Bind(1)]);
    r
}

/// The statement that inserts a row: the column list, then value `i` of the
/// list written as `kinds[i]` says, bound values and `NULL` separated by
/// `", "` and the other kinds written without a separator.
pub fn insert_statement(table: &str, columns: &Vec<String>, kinds: &Vec<WriteKind>) -> (r: Vec<Piece>)
    requires
        kinds@.len() == columns@.len(),
    ensures
        columns@.len() == 0 ==> pieces_view(r@) == seq![PieceV::Sql("INSERT INTO `"@ + table@ + "` () VALUES ()"@)],
        columns@.len() > 0 ==> pieces_view(r@) == seq![
            PieceV::Sql("INSERT INTO `"@ + table@ + "` ("@
                + join(Seq::new(columns@.len(), |i: int| "`"@ + columns@[i]@ + "`"@), ", "@) + ") VALUES ("@),
        ] + list_pieces(kinds@) + seq![PieceV::Sql(")"@)],
{
    let mut r: Vec<Piece> = Vec::new();
    let prefix = insert_prefix_sql(table, columns);
    push_sql(&mut r, prefix.as_str());
    if columns.len() == 0 {
        assert(pieces_view(r@) =~= seq![PieceV::Sql("INSERT INTO `"@ + table@ + "` () VALUES ()"@)]);
        return r;
    }
    let ghost head = pieces_view(r@);
    let mut sep = false;
    let mut i: usize = 0;
    proof { reveal_strlit(", "); reveal_strlit("NULL"); }
    while i < kinds.len()
        invariant
            i <= kinds@.len(),
            pieces_view(r@) == head + list_pieces(kinds@.take(i as int)),
            sep == any_separated(kinds@.take(i as int)),
        decreases kinds@.len() - i,
    {
        let k = kinds[i];
        let ghost before = pieces_view(r@);
        let ghost ks = kinds@.take(i + 1);
        proof {
            assert(ks.drop_last() =~= kinds@.take(i as int));
            assert(ks.last() == k);
        }
        match k {
            WriteKind::Bound | WriteKind::Default => {
                if sep {
                    push_sql(&mut r, ", ");
                }
                push_bind(&mut r, i);
                sep = true;
            },
            WriteKind::Null => {
                if sep {
                    push_sql(&mut r, ", ");
                }
                push_sql(&mut r, "NULL");
                sep = true;
            },
            _ => {
                push_value_pieces(&mut r, k, i);
            },
        }
        proof {
            assert(pieces_view(r@) =~= before + list_value_pieces(k, i as nat, any_separated(kinds@.take(i as int))));
            assert(pieces_view(r@) =~= head + list_pieces(ks));
            if takes_separator(k) {
                assert(ks[i as int] == k);
            } else if any_separated(ks) {
                let j = choose|j: int| 0 <= j < ks.len() && takes_separator(#[trigger] ks[j]);
                assert(j < i);
                assert(ks[j] == kinds@.take(i as int)[j]);
            }
            if any_separated(kinds@.take(i as int)) {
                let j = choose|j: int| 0 <= j < i && takes_separator(#[trigger] kinds@.take(i as int)[j]);
                assert(ks[j] == kinds@.take(i as int)[j]);
            }
        }
        i += 1;
    }
    assert(kinds@.take(kinds@.len() as int) =~= kinds@);
    push_sql(&mut r, ")");
    r
}

// ---------------------------------------------------------------------------
// ORDER BY of a query

/// Where the last `ORDER BY` of a query stands. The keyword is searched in the
/// upper-cased query and its byte offset there is used to cut the query
/// itself; likewise for the first `LIMIT` after it. `Unsliceable` is the case
/// where such an offset is not a character boundary of the text it cuts.
pub enum OrderByCut {
    Absent,
    /// The character position of `ORDER BY`, and that of `LIMIT` within the
    /// text from `ORDER BY` on.
    Cut(int, Option<int>),
    Unsliceable,
}

/// Where the last `ORDER BY` of `q` stands.
pub open spec fn order_by_cut(q: Seq<char>) -> OrderByCut {
    let u = upper(q);
    match find_last(u, "ORDER BY"@) {
        None => OrderByCut::Absent,
        Some(k) => match boundary_index(q, byte_len(u.take(k)) as int) {
            None => OrderByCut::Unsliceable,
            Some(j) => {
                let after = q.skip(j);
                let ua = upper(after);
                match find_first(ua, "LIMIT"@) {
                    None => OrderByCut::Cut(j, None),
                    Some(m) => match boundary_index(after, byte_len(ua.take(m)) as int) {
                        None => OrderByCut::Unsliceable,
                        Some(i) => OrderByCut::Cut(j, Some(i)),
                    },
                }
            },
        },
    }
}

/// The `ORDER BY` clause of `q` (up to any `LIMIT`), trimmed; empty when there is none.
pub open spec fn order_by_clause(q: Seq<char>) -> Seq<char> {
    match order_by_cut(q) {
        OrderByCut::Cut(j, None) => trim(q.skip(j)),
        OrderByCut::Cut(j, Some(i)) => trim(q.skip(j).take(i)),
        _ => Seq::<char>::empty(),
    }
}

/// `q` without its `ORDER BY` clause: the trimmed text before it, then any
/// `LIMIT` part after a space; `q` itself when it has no such clause.
pub open spec fn without_order_by(q: Seq<char>) -> Seq<char> {
    match order_by_cut(q) {
        OrderByCut::Absent => q,
        OrderByCut::Cut(j, None) => trim(q.take(j)),
        OrderByCut::Cut(j, Some(i)) => trim(q.take(j)) + " "@ + trim(q.skip(j).skip(i)),
        OrderByCut::Unsliceable => Seq::<char>::empty(),
    }
}

/// `order_by_cut` for ASCII text, where character and byte positions agree:
/// the last `ORDER BY` of the ASCII upper case of `q`, and the first `LIMIT`
/// after it.
pub open spec fn ascii_order_by_cut(q: Seq<char>) -> OrderByCut {
    let u = q.map_values(|c: char| ascii_upper(c));
    match find_last(u, "ORDER BY"@) {
        None => OrderByCut::Absent,
        Some(k) => match find_first(u.skip(k), "LIMIT"@) {
            None => OrderByCut::Cut(k, None),
            Some(m) => OrderByCut::Cut(k, Some(m)),
        },
    }
}

proof fn lemma_ascii_upper_text(q: Seq<char>)
    requires
        is_ascii_text(q),
    ensures
        is_ascii_text(q.map_values(|c: char| ascii_upper(c))),
{
    let u = q.map_values(|c: char| ascii_upper(c));
    assert forall|i: int| 0 <= i < u.len() implies (u[i] as u32) < 128 by {
        assert(u[i] == ascii_upper(q[i]));
    }
}

/// In ASCII text the `ORDER BY` clause is always cut where the keywords stand,
/// matched without regard to case.
pub proof fn lemma_order_by_cut_ascii(q: Seq<char>)
    requires
        is_ascii_text(q),
    ensures
        order_by_cut(q) == ascii_order_by_cut(q),
        !(order_by_cut(q) is Unsliceable),
{
    let u = q.map_values(|c: char| ascii_upper(c));
    crate::text::lemma_upper_ascii(q);
    lemma_ascii_upper_text(q);
    crate::text::lemma_find_last(u, "ORDER BY"@);
    match find_last(u, "ORDER BY"@) {
        None => {},
        Some(k) => {
            crate::text::lemma_ascii_bytes(u);
            crate::text::lemma_ascii_bytes(q);
            assert(byte_len(u.take(k)) == k);
            assert(boundary_index(q, k) == Some(k));
            let after = q.skip(k);
            assert(is_ascii_text(after)) by {
                assert forall|i: int| 0 <= i < after.len() implies (after[i] as u32) < 128 by {
                    assert(after[i] == q[i + k]);
                }
            }
            crate::text::lemma_upper_ascii(after);
            assert(after.map_values(|c: char| ascii_upper(c)) =~= u.skip(k));
            let ua = u.skip(k);
            lemma_ascii_upper_text(after);
            crate::text::lemma_find_first(ua, "LIMIT"@);
            match find_first(ua, "LIMIT"@) {
                None => {},
                Some(m) => {
                    crate::text::lemma_ascii_bytes(ua);
                    crate::text::lemma_ascii_bytes(after);
                    assert(byte_len(ua.take(m)) == m);
                    assert(boundary_index(after, m) == Some(m));
                },
            }
        },
    }
}

enum Cut {
    Absent,
    At(usize, Option<usize>),
    Unsliceable,
}

#[verifier::spinoff_prover]
fn locate_order_by(v: &Vec<char>) -> (r: Cut)
    ensures
        match order_by_cut(v@) {
            OrderByCut::Absent => r is Absent,
            OrderByCut::Unsliceable => r is Unsliceable,
            OrderByCut::Cut(j, None) => r == Cut::At(j as usize, None) && j <= v@.len(),
            OrderByCut::Cut(j, Some(i)) => r == Cut::At(j as usize, Some(i as usize)) && j <= v@.len()
                && i <= v@.len() - j,
        },
{
    assert(v@.subrange(0, v@.len() as int) =~= v@);
    assert(v@.skip(0) =~= v@);
    let u = upper_chars(v, 0, v.len());
    proof { reveal_strlit("ORDER BY"); }
    let kw = chars_of("ORDER BY");
    match find_last_exec(&u, &kw) {
        None => Cut::Absent,
        Some(k) => {
            proof { crate::text::lemma_find_last(u@, kw@); }
            let b = byte_len_exec(&u, k);
            match boundary_index_exec(v, 0, b) {
                None => Cut::Unsliceable,
                Some(j) => {
                    assert(v@.subrange(j as int, v@.len() as int) =~= v@.skip(j as int));
                    let ua = upper_chars(v, j, v.len());
                    proof { reveal_strlit("LIMIT"); }
                    let lk = chars_of("LIMIT");
                    match find_first_exec(&ua, &lk) {
                        None => Cut::At(j, None),
                        Some(m) => {
                            proof { crate::text::lemma_find_first(ua@, lk@); }
                            let bm = byte_len_exec(&ua, m);
                            match boundary_index_exec(v, j, bm) {
                                None => Cut::Unsliceable,
                                Some(i) => Cut::At(j, Some(i)),
                            }
                        },
                    }
                },
            }
        },
    }
}

/// Whether the `ORDER BY` handling can cut `query` (it cannot when an offset
/// found in the upper-cased query falls inside a character of the query).
pub fn order_by_sliceable(query: &str) -> (b: bool)
    ensures
        b == !(order_by_cut(query@) is Unsliceable),
{
    let v = chars_of(query);
    match locate_order_by(&v) {
        Cut::Unsliceable => false,
        _ => true,
    }
}

/// The `ORDER BY` clause of `query`, up to any `LIMIT`, trimmed; empty when
/// there is none.
pub fn extract_order_by(query: &str) -> (r: String)
    requires
        !(order_by_cut(query@) is Unsliceable),
    ensures
        r@ == order_by_clause(query@),
{
    let v = chars_of(query);
    match locate_order_by(&v) {
        Cut::At(j, None) => {
            let (lo, hi) = trim_bounds(&v, j, v.len());
            assert(v@.subrange(j as int, v@.len() as int) =~= v@.skip(j as int));
            string_of(&v, lo, hi)
        },
        Cut::At(j, Some(i)) => {
            let (lo, hi) = trim_bounds(&v, j, j + i);
            assert(v@.subrange(j as int, j + i) =~= v@.skip(j as int).take(i as int));
            string_of(&v, lo, hi)
        },
        _ => String::new(),
    }
}

/// `query` without its `ORDER BY` clause: the trimmed text before it, then any
/// `LIMIT` part after a space; `query` itself when it has none.
pub fn remove_order_by(query: &str) -> (r: String)
    requires
        !(order_by_cut(query@) is Unsliceable),
    ensures
        r@ == without_order_by(query@),
{
    let v = chars_of(query);
    match locate_order_by(&v) {
        Cut::At(j, None) => {
            let (lo, hi) = trim_bounds(&v, 0, j);
            assert(v@.subrange(0, j as int) =~= v@.take(j as int));
            string_of(&v, lo, hi)
        },
        Cut::At(j, Some(i)) => {
            let (lo, hi) = trim_bounds(&v, 0, j);
            assert(v@.subrange(0, j as int) =~= v@.take(j as int));
            let mut r = string_of(&v, lo, hi);
            r.append(" ");
            let n = v.len();
            let (lo2, hi2) = trim_bounds(&v, j + i, n);
            assert(v@.subrange(j + i, v@.len() as int) =~= v@.skip(j as int).skip(i as int));
            let tail = string_of(&v, lo2, hi2);
            r.append(tail.as_str());
            r
        },
        _ => String::from_str(query),
    }
}

// ---------------------------------------------------------------------------
// Running a query

/// A query reads rows when, after leading whitespace, it starts with `SELECT`
/// in any case.
pub open spec fn is_select_spec(q: Seq<char>) -> bool {
    starts_with(upper(trim_start(q)), "SELECT"@)
}

/// Whether `query` reads rows.
pub fn is_select_query(query: &str) -> (b: bool)
    ensures
        b == is_select_spec(query@),
{
    let v = chars_of(query);
    let lo = trim_start_index(&v, 0, v.len());
    assert(v@.subrange(0, v@.len() as int) =~= v@);
    let u = upper_chars(&v, lo, v.len());
    proof { reveal_strlit("SELECT"); }
    let kw = chars_of("SELECT");
    occurs_at_exec(&u, &kw, 0)
}

/// The query that fetches page `page` (from 1) of `page_size` rows, plus one
/// row to tell whether more follow; an `ORDER BY` of the query is moved
/// outside the wrapping sub-query.
pub open spec fn paged_query(q: Seq<char>, page_size: nat, page: nat) -> Seq<char> {
    let offset = decimal(((page - 1) * page_size) as nat);
    let fetch = decimal(page_size + 1);
    if order_by_clause(q).len() > 0 {
        "SELECT * FROM ("@ + without_order_by(q) + ") as data_wrapper "@ + order_by_clause(q) + " LIMIT "@
            + fetch + " OFFSET "@ + offset
    } else {
        "SELECT * FROM ("@ + q + ") as data_wrapper LIMIT "@ + fetch + " OFFSET "@ + offset
    }
}

/// How a query is run.
pub struct QueryPlan {
    /// Whether the query reads rows (otherwise it is executed for its effect).
    pub is_select: bool,
    /// The statement sent to the server.
    pub final_query: String,
    /// The page being read, when one was asked for.
    pub pagination: Option<Pagination>,
    /// A row limit applied while reading.
    pub manual_limit: Option<u32>,
}

/// The inputs on which planning a query would overflow or cut a character:
/// a paged read needs a page from 1, an offset and a fetch count that fit in
/// 32 bits, and an `ORDER BY` that can be cut.
pub open spec fn plan_defined(q: Seq<char>, limit: Option<u32>, page: u32) -> bool {
    is_select_spec(q) && limit is Some ==> {
        let ps = limit->0;
        &&& 1 <= page
        &&& (page - 1) * ps <= u32::MAX
        &&& ps < u32::MAX
        &&& !(order_by_cut(q) is Unsliceable)
    }
}

/// Whether `plan_query` is defined for these inputs.
pub fn plan_is_defined(query: &str, limit: Option<u32>, page: u32) -> (b: bool)
    ensures
        b == plan_defined(query@, limit, page),
{
    if !is_select_query(query) {
        return true;
    }
    match limit {
        None => true,
        Some(ps) => {
            if page < 1 || ps == u32::MAX {
                return false;
            }
            let a = (page - 1) as u64;
            let b = ps as u64;
            assert(a * b <= 0xffff_ffffu64 * 0xffff_ffffu64) by (nonlinear_arith)
                requires a <= 0xffff_ffffu64, b <= 0xffff_ffffu64;
            if a * b > u32::MAX as u64 {
                return false;
            }
            order_by_sliceable(query)
        },
    }
}

/// Plans a query: a read with a page size gets the paged statement and its
/// pagination; any other query runs as given, with no row limit.
pub fn plan_query(query: &str, limit: Option<u32>, page: u32) -> (r: QueryPlan)
    requires
        plan_defined(query@, limit, page),
    ensures
        r.is_select == is_select_spec(query@),
        r.manual_limit is None,
        r.is_select && limit is Some ==> r.final_query@ == paged_query(query@, limit->0 as nat, page as nat)
            && r.pagination == Some(
            (Pagination { page: page, page_size: limit->0, total_rows: None, has_more: false }),
        ),
        !(r.is_select && limit is Some) ==> r.final_query@ == query@ && r.pagination is None,
{
    let is_select = is_select_query(query);
    if is_select && limit.is_some() {
        let page_size = match limit {
            Some(ps) => ps,
            None => 0,
        };
        assert((page - 1) * page_size <= u32::MAX);
        let offset = (page - 1) * page_size;
        let clause = extract_order_by(query);
        let mut sql = String::from_str("SELECT * FROM (");
        if !clause.as_str().is_empty() {
            let inner = remove_order_by(query);
            sql.append(inner.as_str());
            sql.append(") as data_wrapper ");
            sql.append(clause.as_str());
            sql.append(" LIMIT ");
        } else {
            sql.append(query);
            sql.append(") as data_wrapper LIMIT ");
        }
        push_decimal(&mut sql, (page_size + 1) as u64);
        sql.append(" OFFSET ");
        push_decimal(&mut sql, offset as u64);
        QueryPlan {
            is_select,
            final_query: sql,
            pagination: Some(Pagination { page, page_size, total_rows: None, has_more: false }),
            manual_limit: None,
        }
    } else {
        QueryPlan {
            is_select,
            final_query: String::from_str(query),
            pagination: None,
            manual_limit: if is_select { limit } else { None },
        }
    }
}

/// Plans a query where planning is defined (`Some`, as `plan_query` plans
/// it); `None` for a page before the first, a page whose offset or fetch count
/// does not fit in 32 bits, or an `ORDER BY` that cannot be cut.
pub fn plan_query_checked(query: &str, limit: Option<u32>, page: u32) -> (r: Option<QueryPlan>)
    ensures
        r is Some <==> plan_defined(query@, limit, page),
        r matches Some(p) ==> {
            &&& p.is_select == is_select_spec(query@)
            &&& p.manual_limit is None
            &&& p.is_select && limit is Some ==> p.final_query@ == paged_query(query@, limit->0 as nat, page as nat)
                && p.pagination == Some(
                (Pagination { page: page, page_size: limit->0, total_rows: None, has_more: false }),
            )
            &&& !(p.is_select && limit is Some) ==> p.final_query@ == query@ && p.pagination is None
        },
{
    if plan_is_defined(query, limit, page) {
        Some(plan_query(query, limit, page))
    } else {
        None
    }
}

/// Whether reading stops before the next row: a row limit is reached.
pub fn reached_row_limit(rows_so_far: usize, manual_limit: Option<u32>) -> (b: bool)
    ensures
        b == (manual_limit matches Some(l) && rows_so_far >= l),
{
    match manual_limit {
        Some(l) => rows_so_far >= l as usize,
        None => false,
    }
}

/// What is kept of the rows read.
pub struct PageOutcome {
    /// How many of the rows read are returned (the first ones).
    pub rows_kept: usize,
    /// Whether more rows exist than are returned.
    pub truncated: bool,
    /// The page, with `has_more` filled in.
    pub pagination: Option<Pagination>,
}

/// Ends a read: on a page, the extra row fetched beyond the page size shows
/// that more rows follow and is dropped; without a page, everything read is kept.
pub fn finish_page(rows_fetched: usize, truncated: bool, pagination: Option<Pagination>) -> (r: PageOutcome)
    ensures
        match pagination {
            Some(p) => {
                let has_more = rows_fetched > p.page_size;
                &&& r.rows_kept == (if has_more { p.page_size as usize } else { rows_fetched })
                &&& r.truncated == has_more
                &&& r.pagination == Some(
                    (Pagination { page: p.page, page_size: p.page_size, total_rows: p.total_rows, has_more: has_more }),
                )
            },
            None => r.rows_kept == rows_fetched && r.truncated == truncated && r.pagination is None,
        },
{
    match pagination {
        Some(p) => {
            let has_more = rows_fetched > p.page_size as usize;
            let rows_kept = if has_more { p.page_size as usize } else { rows_fetched };
            PageOutcome {
                rows_kept,
                truncated: has_more,
                pagination: Some(Pagination { page: p.page, page_size: p.page_size, total_rows: p.total_rows, has_more }),
            }
        },
        None => PageOutcome { rows_kept: rows_fetched, truncated, pagination: None },
    }
}

// ---------------------------------------------------------------------------
// Per-table collections

/// The items of a table, in the order they came.
pub struct Group<T> {
    pub name: String,
    pub items: Vec<T>,
}

/// The items of `rows` that belong to the table `name`, in order.
pub open spec fn items_named<T>(rows: Seq<(String, T)>, name: Seq<char>) -> Seq<T>
    decreases rows.len(),
{
    if rows.len() == 0 {
        Seq::<T>::empty()
    } else {
        items_named(rows.drop_last(), name) + (if rows.last().0@ == name {
            seq![rows.last().1]
        } else {
            Seq::<T>::empty()
        })
    }
}

/// Group names are distinct.
pub open spec fn distinct_names<T>(groups: Seq<Group<T>>) -> bool {
    forall|i: int, j: int| 0 <= i < j < groups.len() ==> groups[i].name@ != groups[j].name@
}

/// Each group holds the items of its table.
pub open spec fn items_match<T>(groups: Seq<Group<T>>, rows: Seq<(String, T)>) -> bool {
    forall|i: int| 0 <= i < groups.len() ==> #[trigger] groups[i].items@ == items_named(rows, groups[i].name@)
}

/// Every row's table has a group.
pub open spec fn rows_covered<T>(groups: Seq<Group<T>>, rows: Seq<(String, T)>) -> bool {
    forall|k: int| #![trigger rows[k]] 0 <= k < rows.len() ==> exists|i: int| #![trigger groups[i]] 0 <= i < groups.len() && groups[i].name@ == rows[k].0@
}

/// Every group's table occurs in the rows.
pub open spec fn groups_used<T>(groups: Seq<Group<T>>, rows: Seq<(String, T)>) -> bool {
    forall|i: int| #![trigger groups[i]] 0 <= i < groups.len() ==> exists|k: int| #![trigger rows[k]] 0 <= k < rows.len() && groups[i].name@ == rows[k].0@
}

/// `groups` gathers `rows` by table: one group per table name that occurs,
/// holding that table's items in order.
pub open spec fn grouped<T>(groups: Seq<Group<T>>, rows: Seq<(String, T)>) -> bool {
    &&& distinct_names(groups)
    &&& items_match(groups, rows)
    &&& rows_covered(groups, rows)
    &&& groups_used(groups, rows)
}

/// The rows of table `name`, in the order they came, with the table name dropped.
pub open spec fn rows_of_table<T>(rows: Seq<(String, T)>, name: Seq<char>) -> Seq<T> {
    rows.filter(|r: (String, T)| r.0@ == name).map_values(|r: (String, T)| r.1)
}

proof fn lemma_items_named_filter<T>(rows: Seq<(String, T)>, name: Seq<char>)
    ensures
        items_named(rows, name) == rows_of_table(rows, name),
        (exists|k: int| 0 <= k < rows.len() && #[trigger] rows[k].0@ == name) ==> items_named(rows, name).len() > 0,
    decreases rows.len(),
{
    reveal(Seq::filter);
    let pred = |r: (String, T)| r.0@ == name;
    if rows.len() > 0 {
        lemma_items_named_filter(rows.drop_last(), name);
        let sub = rows.drop_last().filter(pred);
        if pred(rows.last()) {
            assert(rows.filter(pred) == sub.push(rows.last()));
            assert(rows_of_table(rows, name) =~= rows_of_table(rows.drop_last(), name) + seq![rows.last().1]);
        } else {
            assert(rows.filter(pred) == sub);
            if exists|k: int| 0 <= k < rows.len() && #[trigger] rows[k].0@ == name {
                let k = choose|k: int| 0 <= k < rows.len() && #[trigger] rows[k].0@ == name;
                assert(k != rows.len() - 1);
                assert(rows.drop_last()[k] == rows[k]);
            }
        }
    } else {
        assert(rows.filter(pred) =~= Seq::<(String, T)>::empty());
        assert(rows_of_table(rows, name) =~= Seq::<T>::empty());
    }
}

/// Some group is named `name`.
pub open spec fn has_group<T>(groups: Seq<Group<T>>, name: Seq<char>) -> bool {
    exists|i: int| 0 <= i < groups.len() && #[trigger] groups[i].name@ == name
}

/// Some row belongs to table `name`.
pub open spec fn has_rows<T>(rows: Seq<(String, T)>, name: Seq<char>) -> bool {
    exists|k: int| 0 <= k < rows.len() && #[trigger] rows[k].0@ == name
}

/// What a batch read grouped by table gives, for a catalogue read in one
/// state: a group exactly for each table that has rows, no group empty, and
/// each group holding that table's rows in the order they came, which is what
/// a read of that table alone gives.
pub proof fn lemma_batch_read<T>(groups: Seq<Group<T>>, rows: Seq<(String, T)>)
    requires
        grouped(groups, rows),
    ensures
        forall|name: Seq<char>|
            #![trigger has_group(groups, name)]
            #![trigger has_rows(rows, name)]
            has_group(groups, name) <==> has_rows(rows, name),
        forall|i: int| 0 <= i < groups.len() ==> (#[trigger] groups[i]).items@ == rows_of_table(rows, groups[i].name@),
        forall|i: int| 0 <= i < groups.len() ==> (#[trigger] groups[i]).items@.len() > 0,
{
    assert forall|i: int| 0 <= i < groups.len() implies (#[trigger] groups[i]).items@ == rows_of_table(rows, groups[i].name@)
        && groups[i].items@.len() > 0 by {
        lemma_items_named_filter(rows, groups[i].name@);
        let k = choose|k: int| #![trigger rows[k]] 0 <= k < rows.len() && groups[i].name@ == rows[k].0@;
        assert(rows[k].0@ == groups[i].name@);
    }
    assert forall|name: Seq<char>| has_group(groups, name) <==> has_rows(rows, name) by {
        if exists|i: int| 0 <= i < groups.len() && #[trigger] groups[i].name@ == name {
            let i = choose|i: int| 0 <= i < groups.len() && #[trigger] groups[i].name@ == name;
            assert(groups[i] == groups[i]);
            let k = choose|k: int| #![trigger rows[k]] 0 <= k < rows.len() && groups[i].name@ == rows[k].0@;
            assert(rows[k].0@ == name);
        }
        if exists|k: int| 0 <= k < rows.len() && #[trigger] rows[k].0@ == name {
            let k = choose|k: int| 0 <= k < rows.len() && #[trigger] rows[k].0@ == name;
            assert(rows[k] == rows[k]);
            let i = choose|i: int| #![trigger groups[i]] 0 <= i < groups.len() && groups[i].name@ == rows[k].0@;
            assert(groups[i].name@ == name);
        }
    }
}

proof fn lemma_items_named_absent<T>(rows: Seq<(String, T)>, name: Seq<char>)
    requires
        forall|k: int| 0 <= k < rows.len() ==> rows[k].0@ != name,
    ensures
        items_named(rows, name) == Seq::<T>::empty(),
    decreases rows.len(),
{
    if rows.len() > 0 {
        lemma_items_named_absent(rows.drop_last(), name);
        assert(rows.last() == rows[rows.len() - 1]);
    }
}

/// The groups after another row of the table of group `g`: that group grows
/// by the row's item, the others stay.
spec fn extended_group<T>(g0: Seq<Group<T>>, g1: Seq<Group<T>>, after: Seq<(String, T)>, g: int) -> bool {
    &&& after.len() > 0
    &&& 0 <= g < g0.len()
    &&& g1.len() == g0.len()
    &&& g0[g].name@ == after.last().0@
    &&& g1[g].name == g0[g].name
    &&& g1[g].items@ == g0[g].items@.push(after.last().1)
    &&& forall|i: int| 0 <= i < g0.len() && i != g ==> #[trigger] g1[i] == g0[i]
}

#[verifier::spinoff_prover]
proof fn lemma_push_existing_items<T>(
    g0: Seq<Group<T>>,
    g1: Seq<Group<T>>,
    before: Seq<(String, T)>,
    after: Seq<(String, T)>,
    g: int,
)
    requires
        distinct_names(g0),
        items_match(g0, before),
        extended_group(g0, g1, after, g),
        after.drop_last() == before,
    ensures
        distinct_names(g1),
        items_match(g1, after),
{
    assert forall|i: int| 0 <= i < g1.len() implies g1[i].name == g0[i].name by {
        if i != g {
            assert(g1[i] == g0[i]);
        }
    }
    assert forall|i: int| 0 <= i < g1.len() implies #[trigger] g1[i].items@ == items_named(after, g1[i].name@) by {
        if i != g {
            assert(g1[i] == g0[i]);
            assert(g0[i].items@ == items_named(before, g0[i].name@));
        } else {
            assert(g0[g].items@ == items_named(before, g0[g].name@));
        }
    }
}

#[verifier::spinoff_prover]
proof fn lemma_push_existing_coverage<T>(
    g0: Seq<Group<T>>,
    g1: Seq<Group<T>>,
    before: Seq<(String, T)>,
    after: Seq<(String, T)>,
    g: int,
)
    requires
        rows_covered(g0, before),
        groups_used(g0, before),
        extended_group(g0, g1, after, g),
        after.drop_last() == before,
    ensures
        rows_covered(g1, after),
        groups_used(g1, after),
{
    let k = before.len() as int;
    assert forall|i: int| 0 <= i < g1.len() implies g1[i].name == g0[i].name by {
        if i != g {
            assert(g1[i] == g0[i]);
        }
    }
    assert forall|j: int| #![trigger after[j]] 0 <= j < after.len() implies exists|i: int| #![trigger g1[i]] 0 <= i < g1.len() && g1[i].name@ == after[j].0@ by {
        if j < k {
            assert(after[j] == before[j]);
            let i = choose|i: int| #![trigger g0[i]] 0 <= i < g0.len() && g0[i].name@ == before[j].0@;
            assert(g1[i].name == g0[i].name);
        } else {
            assert(after[j] == after.last());
            assert(g1[g].name@ == after[j].0@);
        }
    }
    assert forall|i: int| #![trigger g1[i]] 0 <= i < g1.len() implies exists|j: int| #![trigger after[j]] 0 <= j < after.len() && g1[i].name@ == after[j].0@ by {
        assert(g1[i].name == g0[i].name);
        assert(g0[i] == g0[i]);
        let j = choose|j: int| #![trigger before[j]] 0 <= j < before.len() && g0[i].name@ == before[j].0@;
        assert(after[j] == before[j]);
    }
}

proof fn lemma_grouped_push_existing<T>(
    g0: Seq<Group<T>>,
    g1: Seq<Group<T>>,
    before: Seq<(String, T)>,
    after: Seq<(String, T)>,
    g: int,
)
    requires
        grouped(g0, before),
        after.len() > 0,
        after.drop_last() == before,
        0 <= g < g0.len(),
        g1.len() == g0.len(),
        g0[g].name@ == after.last().0@,
        g1[g].name == g0[g].name,
        g1[g].items@ == g0[g].items@.push(after.last().1),
        forall|i: int| 0 <= i < g0.len() && i != g ==> g1[i] == g0[i],
    ensures
        grouped(g1, after),
{
    assert(extended_group(g0, g1, after, g));
    lemma_push_existing_items(g0, g1, before, after, g);
    lemma_push_existing_coverage(g0, g1, before, after, g);
}

/// The groups after a new table's first row: the old groups, then one more.
spec fn appended_group<T>(g0: Seq<Group<T>>, g1: Seq<Group<T>>, after: Seq<(String, T)>) -> bool {
    &&& after.len() > 0
    &&& g1.len() == g0.len() + 1
    &&& forall|i: int| 0 <= i < g0.len() ==> #[trigger] g1[i] == g0[i]
    &&& g1[g0.len() as int].name@ == after.last().0@
    &&& g1[g0.len() as int].items@ == seq![after.last().1]
}

proof fn lemma_push_new_names<T>(g0: Seq<Group<T>>, g1: Seq<Group<T>>, after: Seq<(String, T)>)
    requires
        distinct_names(g0),
        appended_group(g0, g1, after),
        forall|i: int| 0 <= i < g0.len() ==> g0[i].name@ != after.last().0@,
    ensures
        distinct_names(g1),
{
    assert forall|i: int, j: int| 0 <= i < j < g1.len() implies g1[i].name@ != g1[j].name@ by {
        assert(g1[i] == g0[i]);
        if j < g0.len() {
            assert(g1[j] == g0[j]);
        }
    }
}

#[verifier::spinoff_prover]
proof fn lemma_push_new_items<T>(
    g0: Seq<Group<T>>,
    g1: Seq<Group<T>>,
    before: Seq<(String, T)>,
    after: Seq<(String, T)>,
)
    requires
        items_match(g0, before),
        appended_group(g0, g1, after),
        after.drop_last() == before,
        forall|i: int| 0 <= i < g0.len() ==> g0[i].name@ != after.last().0@,
        items_named(before, after.last().0@) == Seq::<T>::empty(),
    ensures
        items_match(g1, after),
{
    let name = after.last().0@;
    assert forall|i: int| 0 <= i < g1.len() implies #[trigger] g1[i].items@ == items_named(after, g1[i].name@) by {
        if i < g0.len() {
            assert(g1[i] == g0[i]);
            assert(g0[i].items@ == items_named(before, g0[i].name@));
        } else {
            assert(items_named(after, name) =~= Seq::<T>::empty() + seq![after.last().1]);
        }
    }
}

#[verifier::spinoff_prover]
proof fn lemma_push_new_coverage<T>(
    g0: Seq<Group<T>>,
    g1: Seq<Group<T>>,
    before: Seq<(String, T)>,
    after: Seq<(String, T)>,
)
    requires
        rows_covered(g0, before),
        groups_used(g0, before),
        appended_group(g0, g1, after),
        after.drop_last() == before,
    ensures
        rows_covered(g1, after),
        groups_used(g1, after),
{
    let k = before.len() as int;
    assert forall|j: int| #![trigger after[j]] 0 <= j < after.len() implies exists|i: int| #![trigger g1[i]] 0 <= i < g1.len() && g1[i].name@ == after[j].0@ by {
        if j < k {
            assert(after[j] == before[j]);
            let i = choose|i: int| #![trigger g0[i]] 0 <= i < g0.len() && g0[i].name@ == before[j].0@;
            assert(g1[i] == g0[i]);
        } else {
            assert(after[j] == after.last());
            assert(g1[g0.len() as int].name@ == after[j].0@);
        }
    }
    assert forall|i: int| #![trigger g1[i]] 0 <= i < g1.len() implies exists|j: int| #![trigger after[j]] 0 <= j < after.len() && g1[i].name@ == after[j].0@ by {
        if i < g0.len() {
            assert(g1[i] == g0[i]);
            assert(g0[i] == g0[i]);
            let j = choose|j: int| #![trigger before[j]] 0 <= j < before.len() && g0[i].name@ == before[j].0@;
            assert(after[j] == before[j]);
        } else {
            assert(after[k] == after.last());
        }
    }
}

proof fn lemma_grouped_push_new<T>(
    g0: Seq<Group<T>>,
    g1: Seq<Group<T>>,
    before: Seq<(String, T)>,
    after: Seq<(String, T)>,
)
    requires
        grouped(g0, before),
        after.len() > 0,
        after.drop_last() == before,
        forall|i: int| 0 <= i < g0.len() ==> g0[i].name@ != after.last().0@,
        g1.len() == g0.len() + 1,
        g1.drop_last() == g0,
        g1.last().name@ == after.last().0@,
        g1.last().items@ == seq![after.last().1],
    ensures
        grouped(g1, after),
{
    let name = after.last().0@;
    assert forall|i: int| 0 <= i < g0.len() implies #[trigger] g1[i] == g0[i] by {
        assert(g1[i] == g1.drop_last()[i]);
    }
    assert(g1[g0.len() as int] == g1.last());
    assert(appended_group(g0, g1, after));
    assert forall|j: int| #![trigger before[j]] 0 <= j < before.len() implies before[j].0@ != name by {
        let i = choose|i: int| #![trigger g0[i]] 0 <= i < g0.len() && g0[i].name@ == before[j].0@;
    }
    lemma_items_named_absent(before, name);
    lemma_push_new_names(g0, g1, after);
    lemma_push_new_items(g0, g1, before, after);
    lemma_push_new_coverage(g0, g1, before, after);
}

fn find_group<T>(groups: &Vec<Group<T>>, name: &str) -> (r: Option<usize>)
    ensures
        match r {
            Some(g) => g < groups@.len() && groups@[g as int].name@ == name@,
            None => forall|i: int| 0 <= i < groups@.len() ==> groups@[i].name@ != name@,
        },
{
    let mut g: usize = 0;
    while g < groups.len()
        invariant
            g <= groups@.len(),
            forall|i: int| 0 <= i < g ==> groups@[i].name@ != name@,
        decreases groups@.len() - g,
    {
        if same_text(groups[g].name.as_str(), name) {
            return Some(g);
        }
        g += 1;
    }
    None
}

/// Gathers `(table name, item)` rows by table, keeping each table's items in
/// the order they came.
pub fn group_by_table<T>(rows: Vec<(String, T)>) -> (groups: Vec<Group<T>>)
    ensures
        grouped(groups@, rows@),
{
    let ghost orig = rows@;
    let mut groups: Vec<Group<T>> = Vec::new();
    for row in it: rows
        invariant
            it.seq() == orig,
            it.index() <= orig.len(),
            grouped(groups@, orig.take(it.index() as int)),
    {
        let ghost k = it.index() as int;
        let ghost before = orig.take(k);
        let ghost after = orig.take(k + 1);
        let ghost g0 = groups@;
        proof {
            assert(after.drop_last() =~= before);
            assert(after.last() == orig[k]);
        }
        let (name, item) = row;
        match find_group(&groups, name.as_str()) {
            Some(g) => {
                groups[g].items.push(item);
                proof {
                    lemma_grouped_push_existing(g0, groups@, before, after, g as int);
                }
            },
            None => {
                let mut items: Vec<T> = Vec::new();
                items.push(item);
                groups.push(Group { name, items });
                proof {
                    assert(groups@.drop_last() =~= g0);
                    lemma_grouped_push_new(g0, groups@, before, after);
                }
            },
        }
    }
    proof {
        assert(orig.take(orig.len() as int) =~= orig);
    }
    groups
}

/// The items of the group named `name`; none when no group has that name.
pub open spec fn group_items<T>(groups: Seq<Group<T>>, name: Seq<char>) -> Seq<T> {
    if exists|g: int| 0 <= g < groups.len() && #[trigger] groups[g].name@ == name {
        groups[choose|g: int| 0 <= g < groups.len() && #[trigger] groups[g].name@ == name].items@
    } else {
        Seq::<T>::empty()
    }
}

/// Table `i` is the first of `tables` with its name.
pub open spec fn first_of_name(tables: Seq<TableInfo>, i: int) -> bool {
    forall|j: int| 0 <= j < i ==> tables[j].name@ != tables[i].name@
}

/// The groups after those named by the first `i` tables were taken out.
pub open spec fn taken_upto<T>(g0: Seq<Group<T>>, g: Seq<Group<T>>, tables: Seq<TableInfo>, i: int) -> bool {
    &&& g.len() == g0.len()
    &&& forall|k: int| 0 <= k < g.len() ==> #[trigger] g[k].name == g0[k].name
    &&& forall|k: int| 0 <= k < g.len() ==> #[trigger] g[k].items@ == (if exists|j: int| 0 <= j < i && #[trigger] tables[j].name@ == g0[k].name@ {
        Seq::<T>::empty()
    } else {
        g0[k].items@
    })
}

fn take_group<T>(groups: &mut Vec<Group<T>>, name: &str) -> (r: Vec<T>)
    requires
        distinct_names(old(groups)@),
    ensures
        r@ == group_items(old(groups)@, name@),
        final(groups)@.len() == old(groups)@.len(),
        forall|k: int| 0 <= k < old(groups)@.len() ==> #[trigger] final(groups)@[k].name == old(groups)@[k].name,
        forall|k: int| 0 <= k < old(groups)@.len() ==> #[trigger] final(groups)@[k].items@ == (if old(groups)@[k].name@ == name@ {
            Seq::<T>::empty()
        } else {
            old(groups)@[k].items@
        }),
{
    match find_group(groups, name) {
        Some(g) => {
            let ghost g0 = groups@;
            proof {
                let c = choose|h: int| 0 <= h < g0.len() && #[trigger] g0[h].name@ == name@;
                if c != g {
                    if c < g {
                        assert(g0[c].name@ != g0[g as int].name@);
                    } else {
                        assert(g0[g as int].name@ != g0[c].name@);
                    }
                }
            }
            let mut r: Vec<T> = Vec::new();
            std::mem::swap(&mut r, &mut groups[g].items);
            proof {
                assert forall|k: int| 0 <= k < g0.len() && k != g implies g0[k].name@ != name@ by {
                    if k < g {
                        assert(g0[k].name@ != g0[g as int].name@);
                    } else {
                        assert(g0[g as int].name@ != g0[k].name@);
                    }
                }
            }
            r
        },
        None => Vec::new(),
    }
}

/// Puts each table together with its columns and foreign keys, taking each
/// table's group out once: a later table of the same name gets none.
pub fn assemble_snapshot(
    tables: Vec<TableInfo>,
    columns: Vec<Group<TableColumn>>,
    foreign_keys: Vec<Group<ForeignKey>>,
) -> (r: Vec<TableSchema>)
    requires
        distinct_names(columns@),
        distinct_names(foreign_keys@),
    ensures
        r@.len() == tables@.len(),
        forall|i: int| 0 <= i < tables@.len() ==> (#[trigger] r@[i]).name == tables@[i].name,
        forall|i: int| 0 <= i < tables@.len() ==> (#[trigger] r@[i]).columns@ == (if first_of_name(tables@, i) {
            group_items(columns@, tables@[i].name@)
        } else {
            Seq::<TableColumn>::empty()
        }),
        forall|i: int| 0 <= i < tables@.len() ==> (#[trigger] r@[i]).foreign_keys@ == (if first_of_name(tables@, i) {
            group_items(foreign_keys@, tables@[i].name@)
        } else {
            Seq::<ForeignKey>::empty()
        }),
{
    let ghost t0 = tables@;
    let ghost c0 = columns@;
    let ghost f0 = foreign_keys@;
    let mut columns = columns;
    let mut foreign_keys = foreign_keys;
    let mut out: Vec<TableSchema> = Vec::new();
    let n = tables.len();
    let mut i: usize = 0;
    proof {
        assert(taken_upto(c0, columns@, t0, 0));
        assert(taken_upto(f0, foreign_keys@, t0, 0));
    }
    while i < n
        invariant
            n == t0.len(),
            tables@ == t0,
            i <= n,
            distinct_names(c0),
            distinct_names(f0),
            distinct_names(columns@),
            distinct_names(foreign_keys@),
            taken_upto(c0, columns@, t0, i as int),
            taken_upto(f0, foreign_keys@, t0, i as int),
            out@.len() == i,
            forall|k: int| 0 <= k < i ==> (#[trigger] out@[k]).name == t0[k].name,
            forall|k: int| 0 <= k < i ==> (#[trigger] out@[k]).columns@ == (if first_of_name(t0, k) {
                group_items(c0, t0[k].name@)
            } else {
                Seq::<TableColumn>::empty()
            }),
            forall|k: int| 0 <= k < i ==> (#[trigger] out@[k]).foreign_keys@ == (if first_of_name(t0, k) {
                group_items(f0, t0[k].name@)
            } else {
                Seq::<ForeignKey>::empty()
            }),
        decreases n - i,
    {
        let name = tables[i].name.clone();
        let ghost cb = columns@;
        let ghost fb = foreign_keys@;
        let cols = take_group(&mut columns, name.as_str());
        let fks = take_group(&mut foreign_keys, name.as_str());
        proof {
            lemma_taken_group(c0, cb, t0, i as int);
            lemma_taken_group(f0, fb, t0, i as int);
            lemma_taken_step(c0, cb, columns@, t0, i as int);
            lemma_taken_step(f0, fb, foreign_keys@, t0, i as int);
        }
        out.push(TableSchema { name, columns: cols, foreign_keys: fks });
        i += 1;
    }
    out
}

proof fn lemma_taken_group<T>(g0: Seq<Group<T>>, g: Seq<Group<T>>, tables: Seq<TableInfo>, i: int)
    requires
        0 <= i < tables.len(),
        distinct_names(g0),
        taken_upto(g0, g, tables, i),
    ensures
        group_items(g, tables[i].name@) == (if first_of_name(tables, i) {
            group_items(g0, tables[i].name@)
        } else {
            Seq::<T>::empty()
        }),
{
    let name = tables[i].name@;
    if exists|h: int| 0 <= h < g0.len() && #[trigger] g0[h].name@ == name {
        let c = choose|h: int| 0 <= h < g0.len() && #[trigger] g0[h].name@ == name;
        assert(g[c].name == g0[c].name);
        let d = choose|h: int| 0 <= h < g.len() && #[trigger] g[h].name@ == name;
        assert(g[d].name == g0[d].name);
        if c != d {
            if c < d {
                assert(g0[c].name@ != g0[d].name@);
            } else {
                assert(g0[d].name@ != g0[c].name@);
            }
        }
        if !first_of_name(tables, i) {
            let j = choose|j: int| 0 <= j < i && tables[j].name@ == tables[i].name@;
            assert(tables[j].name@ == g0[c].name@);
        } else {
            assert forall|j: int| 0 <= j < i implies #[trigger] tables[j].name@ != g0[c].name@ by {}
        }
    } else {
        assert forall|h: int| 0 <= h < g.len() implies #[trigger] g[h].name@ != name by {
            assert(g[h].name == g0[h].name);
        }
    }
}

proof fn lemma_taken_step<T>(g0: Seq<Group<T>>, gb: Seq<Group<T>>, ga: Seq<Group<T>>, tables: Seq<TableInfo>, i: int)
    requires
        0 <= i < tables.len(),
        taken_upto(g0, gb, tables, i),
        ga.len() == gb.len(),
        forall|k: int| 0 <= k < gb.len() ==> #[trigger] ga[k].name == gb[k].name,
        forall|k: int| 0 <= k < gb.len() ==> #[trigger] ga[k].items@ == (if gb[k].name@ == tables[i].name@ {
            Seq::<T>::empty()
        } else {
            gb[k].items@
        }),
    ensures
        taken_upto(g0, ga, tables, i + 1),
        distinct_names(gb) ==> distinct_names(ga),
{
    assert forall|k: int| 0 <= k < ga.len() implies #[trigger] ga[k].items@ == (if exists|j: int| 0 <= j < i + 1 && #[trigger] tables[j].name@ == g0[k].name@ {
        Seq::<T>::empty()
    } else {
        g0[k].items@
    }) by {
        assert(gb[k].name == g0[k].name);
        if exists|j: int| 0 <= j < i && #[trigger] tables[j].name@ == g0[k].name@ {
            let j = choose|j: int| 0 <= j < i && #[trigger] tables[j].name@ == g0[k].name@;
            assert(0 <= j < i + 1 && tables[j].name@ == g0[k].name@);
        } else if tables[i].name@ == g0[k].name@ {
            assert(0 <= i < i + 1 && tables[i].name@ == g0[k].name@);
        } else {
            assert forall|j: int| 0 <= j < i + 1 implies #[trigger] tables[j].name@ != g0[k].name@ by {
                if j < i {
                } else {
                    assert(j == i);
                }
            }
        }
    }
    if distinct_names(gb) {
        assert forall|a: int, b: int| 0 <= a < b < ga.len() implies ga[a].name@ != ga[b].name@ by {
            assert(ga[a].name == gb[a].name);
            assert(ga[b].name == gb[b].name);
        }
    }
}

} // verus!
