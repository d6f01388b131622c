//! Table descriptors and their renderers: column types, field descriptors,
//! table-level options, and the shared `IntoSql` rendering capability.

use vstd::prelude::*;
use vstd::string::StrSliceExecFns;
use vstd::utf8::encode_utf8;
use crate::sink::{ByteSink, RenderError};
use crate::text::{bytes_to_string, dec_chars, lemma_encode_utf8_concat, push_decimal, to_uppercase, upper_of};

verus! {

/// Marker for the SQL dialect a rendering targets.
pub trait Backend {

}

/// The single target dialect tag threaded through the rendering capability.
pub struct Pg;

impl Backend for Pg {

}

/// A render that failed left the sink holding what it held before, plus the
/// UTF-8 encoding of a completed leading part of the target text: the first
/// failure aborts the render, and bytes already written are kept, never
/// rolled back.
pub open spec fn aborted_render(pre: Seq<u8>, post: Seq<u8>, target: Seq<char>) -> bool {
    exists|k: int| 0 <= k <= target.len() && post == pre + encode_utf8(#[trigger] target.take(k))
}

/// Taking a concatenation's first part back out of it.
proof fn lemma_take_of_concat(a: Seq<char>, b: Seq<char>)
    ensures
        (a + b).take(a.len() as int) == a,
{
    assert((a + b).take(a.len() as int) =~= a);
}

/// A sink left at the encoding of a leading part of the target is an aborted
/// render of the target.
proof fn lemma_aborted_at_prefix(pre: Seq<u8>, post: Seq<u8>, done: Seq<char>, target: Seq<char>)
    requires
        post == pre + encode_utf8(done),
        done.len() <= target.len(),
        done == target.take(done.len() as int),
    ensures
        aborted_render(pre, post, target),
{
    assert(post == pre + encode_utf8(target.take(done.len() as int)));
}

/// An aborted child render, standing after a completed leading part, is an
/// aborted render of the whole target.
proof fn lemma_aborted_in_child(
    pre: Seq<u8>,
    post: Seq<u8>,
    done: Seq<char>,
    child: Seq<char>,
    target: Seq<char>,
)
    requires
        aborted_render(pre + encode_utf8(done), post, child),
        done.len() + child.len() <= target.len(),
        done + child == target.take((done.len() + child.len()) as int),
    ensures
        aborted_render(pre, post, target),
{
    let k = choose|k: int|
        0 <= k <= child.len() && post == (pre + encode_utf8(done)) + encode_utf8(child.take(k));
    lemma_encode_utf8_concat(done, child.take(k));
    assert(done + child.take(k) =~= (done + child).take(done.len() + k));
    assert((done + child).take(done.len() + k) =~= target.take(done.len() + k));
    assert(post == pre + encode_utf8(target.take(done.len() + k)));
}

/// A sink left unchanged is an aborted render of any target.
proof fn lemma_aborted_none(pre: Seq<u8>, target: Seq<char>)
    ensures
        aborted_render(pre, pre, target),
{
    assert(target.take(0) =~= Seq::<char>::empty());
    assert(encode_utf8(target.take(0)) =~= Seq::<u8>::empty());
    assert(pre =~= pre + encode_utf8(target.take(0)));
}

/// The shared rendering capability: write your canonical textual form to a
/// byte sink as UTF-8 and return the number of bytes written, or fail.
pub trait IntoSql<B: Backend> {
    /// The canonical textual form this entity renders to.
    spec fn sql_chars(&self) -> Seq<char>;

    /// Writes the canonical textual form into `writer`. On success the sink
    /// has grown by exactly the UTF-8 encoding of `sql_chars`, and the
    /// returned count is its byte length. The first failure of a child or of
    /// the sink aborts the render and is returned unchanged; the sink then
    /// keeps what it held plus the encoding of a completed leading part of
    /// `sql_chars` — nothing after the failing write is emitted, and nothing
    /// already written is rolled back.
    fn into_sql<W: ByteSink>(&self, writer: &mut W) -> (r: Result<usize, RenderError>)
        ensures
            r matches Ok(n) ==> final(writer).contents() == old(writer).contents()
                + encode_utf8(self.sql_chars()) && n == encode_utf8(self.sql_chars()).len()
                && final(writer).contents().len() <= usize::MAX,
            r matches Err(e) ==> e is SinkWrite && aborted_render(
                old(writer).contents(),
                final(writer).contents(),
                self.sql_chars(),
            ),
    ;

    /// Renders into a fresh in-memory sink and converts the bytes into text.
    /// On success the text is exactly `sql_chars` and the count equals the
    /// length of the text's UTF-8 encoding.
    fn into_sql_str(&self) -> (r: Result<(String, usize), RenderError>)
        ensures
            r matches Ok(p) ==> p.0@ == self.sql_chars() && p.1 == encode_utf8(
                self.sql_chars(),
            ).len(),
            r matches Err(e) ==> e is SinkWrite,
    {
        let mut writer: Vec<u8> = Vec::new();
        let n = match self.into_sql(&mut writer) {
            Ok(n) => n,
            Err(e) => { return Err(e) },
        };
        proof {
            vstd::utf8::encode_utf8_valid_utf8(self.sql_chars());
            vstd::utf8::encode_utf8_decode_utf8(self.sql_chars());
        }
        match bytes_to_string(writer) {
            Ok(s) => Ok((s, n)),
            Err(_) => {
                // unreachable: the accumulated bytes are the UTF-8 encoding
                // of sql_chars, which is always valid UTF-8
                proof {
                    assert(false);
                }
                Err(RenderError::SinkWrite)
            },
        }
    }
}

/// A column's SQL data type: a closed set of variants, each with one
/// canonical uppercase type token.
#[derive(Debug)]
pub enum Field {
    Char { max_length: usize },
    VarChar,
    Serial,
    BigInt,
    BigSerial,
    Text,
    Boolean,
    Bit { length: usize },
}

impl Field {
    /// The canonical uppercase SQL type token of this column type;
    /// parameterized variants embed their numeric argument in parentheses.
    pub open spec fn token_chars(&self) -> Seq<char> {
        match self {
            Field::Char { max_length } => "CHAR("@ + dec_chars(*max_length as nat) + ")"@,
            Field::VarChar => "VARCHAR"@,
            Field::Text => "TEXT"@,
            Field::Serial => "SERIAL"@,
            Field::BigInt => "BIGINT"@,
            Field::BigSerial => "BIGSERIAL"@,
            Field::Boolean => "BOOLEAN"@,
            Field::Bit { length } => "BIT("@ + dec_chars(*length as nat) + ")"@,
        }
    }

    /// The type token as UTF-8 bytes.
    fn token_bytes(&self) -> (v: Vec<u8>)
        ensures
            v@ == encode_utf8(self.token_chars()),
    {
        match self {
            Field::Char { max_length } => {
                let mut v = "CHAR(".as_bytes_vec();
                push_decimal(&mut v, *max_length);
                let mut close = ")".as_bytes_vec();
                v.append(&mut close);
                proof {
                    lemma_encode_utf8_concat("CHAR("@, dec_chars(*max_length as nat));
                    lemma_encode_utf8_concat("CHAR("@ + dec_chars(*max_length as nat), ")"@);
                }
                v
            },
            Field::VarChar => "VARCHAR".as_bytes_vec(),
            Field::Text => "TEXT".as_bytes_vec(),
            Field::Serial => "SERIAL".as_bytes_vec(),
            Field::BigInt => "BIGINT".as_bytes_vec(),
            Field::BigSerial => "BIGSERIAL".as_bytes_vec(),
            Field::Boolean => "BOOLEAN".as_bytes_vec(),
            Field::Bit { length } => {
                let mut v = "BIT(".as_bytes_vec();
                push_decimal(&mut v, *length);
                let mut close = ")".as_bytes_vec();
                v.append(&mut close);
                proof {
                    lemma_encode_utf8_concat("BIT("@, dec_chars(*length as nat));
                    lemma_encode_utf8_concat("BIT("@ + dec_chars(*length as nat), ")"@);
                }
                v
            },
        }
    }
}

impl IntoSql<Pg> for Field {
    open spec fn sql_chars(&self) -> Seq<char> {
        self.token_chars()
    }

    fn into_sql<W: ByteSink>(&self, writer: &mut W) -> (r: Result<usize, RenderError>) {
        let v = self.token_bytes();
        match writer.write(v.as_slice()) {
            Ok(n) => Ok(n),
            Err(e) => {
                proof {
                    lemma_aborted_none(old(writer).contents(), self.token_chars());
                }
                Err(e)
            },
        }
    }
}

/// Writes the UTF-8 bytes of `s` into the sink and extends a running byte
/// count, keeping the accounting that ties the count to the sink's growth
/// since `entry`.
fn write_str_counted<W: ByteSink>(
    writer: &mut W,
    s: &str,
    total: usize,
    Ghost(entry): Ghost<Seq<u8>>,
    Ghost(done): Ghost<Seq<char>>,
) -> (r: Result<usize, RenderError>)
    requires
        old(writer).contents() == entry + encode_utf8(done),
        entry.len() + total == old(writer).contents().len(),
    ensures
        r matches Ok(t) ==> final(writer).contents() == entry + encode_utf8(done + s@)
            && entry.len() + t == final(writer).contents().len() && t == total + encode_utf8(
            s@,
        ).len() && final(writer).contents().len() <= usize::MAX,
        r matches Err(e) ==> e is SinkWrite && final(writer).contents() == entry + encode_utf8(
            done,
        ),
{
    let n = match writer.write(s.as_bytes()) {
        Ok(n) => n,
        Err(e) => { return Err(e) },
    };
    proof {
        lemma_encode_utf8_concat(done, s@);
    }
    Ok(total + n)
}

/// Renders a child entity into the sink and extends a running byte count, as
/// `write_str_counted` does for a literal.
fn write_child_counted<B: Backend, T: IntoSql<B>, W: ByteSink>(
    child: &T,
    writer: &mut W,
    total: usize,
    Ghost(entry): Ghost<Seq<u8>>,
    Ghost(done): Ghost<Seq<char>>,
) -> (r: Result<usize, RenderError>)
    requires
        old(writer).contents() == entry + encode_utf8(done),
        entry.len() + total == old(writer).contents().len(),
    ensures
        r matches Ok(t) ==> final(writer).contents() == entry + encode_utf8(
            done + child.sql_chars(),
        ) && entry.len() + t == final(writer).contents().len() && t == total + encode_utf8(
            child.sql_chars(),
        ).len() && final(writer).contents().len() <= usize::MAX,
        r matches Err(e) ==> e is SinkWrite && aborted_render(
            entry + encode_utf8(done),
            final(writer).contents(),
            child.sql_chars(),
        ),
{
    let n = match child.into_sql(writer) {
        Ok(n) => n,
        Err(e) => { return Err(e) },
    };
    proof {
        lemma_encode_utf8_concat(done, child.sql_chars());
    }
    Ok(total + n)
}

/// Per-column options: the column's name, whether it is a primary key,
/// whether it is unique, and tri-state nullability. `None` means "emit no
/// nullability clause"; `Some(true)` emits `NULL`; `Some(false)` emits
/// `NOT NULL`.
#[derive(Debug)]
pub struct CommonFieldOptions {
    pub name: String,
    pub primary_key: bool,
    pub unique: bool,
    pub null: Option<bool>,
}

/// A full column descriptor: per-column options paired with a column type.
#[derive(Debug)]
pub struct TableField {
    pub options: CommonFieldOptions,
    pub kind: Field,
}

/// The nullability clause for a tri-state flag, trailing space included:
/// empty when unspecified.
pub open spec fn null_clause_chars(null: Option<bool>) -> Seq<char> {
    match null {
        None => Seq::empty(),
        Some(true) => "NULL "@,
        Some(false) => "NOT NULL "@,
    }
}

/// The primary-key clause, trailing space included: empty when the flag is
/// off.
pub open spec fn primary_key_chars(primary_key: bool) -> Seq<char> {
    if primary_key {
        "PRIMARY KEY "@
    } else {
        Seq::empty()
    }
}

/// The uniqueness clause, trailing space included: empty when the flag is
/// off.
pub open spec fn unique_chars(unique: bool) -> Seq<char> {
    if unique {
        "UNIQUE "@
    } else {
        Seq::empty()
    }
}

impl TableField {
    /// The full column clause: name, type token, then the optional
    /// nullability, primary-key and uniqueness clauses, in that fixed order,
    /// each followed by one space.
    pub open spec fn clause_chars(&self) -> Seq<char> {
        self.options.name@ + " "@ + self.kind.token_chars() + " "@ + null_clause_chars(
            self.options.null,
        ) + primary_key_chars(self.options.primary_key) + unique_chars(self.options.unique)
    }
}

impl IntoSql<Pg> for TableField {
    open spec fn sql_chars(&self) -> Seq<char> {
        self.clause_chars()
    }

    fn into_sql<W: ByteSink>(&self, writer: &mut W) -> (r: Result<usize, RenderError>) {
        let ghost entry = writer.contents();
        let ghost mut done: Seq<char> = Seq::empty();
        let ghost target = self.clause_chars();
        let mut total: usize = 0;

        total = match write_str_counted(
            writer,
            self.options.name.as_str(),
            total,
            Ghost(entry),
            Ghost(done),
        ) {
            Ok(t) => t,
            Err(e) => {
                proof {
                    assert(target =~= done + target);
                    lemma_take_of_concat(done, target);
                    lemma_aborted_at_prefix(entry, writer.contents(), done, target);
                }
                return Err(e)
            },
        };
        proof {
            done = done + self.options.name@;
        }

        total = match write_str_counted(writer, " ", total, Ghost(entry), Ghost(done)) {
            Ok(t) => t,
            Err(e) => {
                proof {
                    let rest = " "@ + self.kind.token_chars() + " "@ + null_clause_chars(
                        self.options.null,
                    ) + primary_key_chars(self.options.primary_key) + unique_chars(
                        self.options.unique,
                    );
                    assert(target =~= done + rest);
                    lemma_take_of_concat(done, rest);
                    lemma_aborted_at_prefix(entry, writer.contents(), done, target);
                }
                return Err(e)
            },
        };
        proof {
            done = done + " "@;
        }

        total = match write_child_counted(&self.kind, writer, total, Ghost(entry), Ghost(done)) {
            Ok(t) => t,
            Err(e) => {
                proof {
                    let rest = " "@ + null_clause_chars(self.options.null) + primary_key_chars(
                        self.options.primary_key,
                    ) + unique_chars(self.options.unique);
                    assert(target =~= (done + self.kind.token_chars()) + rest);
                    lemma_take_of_concat(done + self.kind.token_chars(), rest);
                    lemma_aborted_in_child(
                        entry,
                        writer.contents(),
                        done,
                        self.kind.token_chars(),
                        target,
                    );
                }
                return Err(e)
            },
        };
        proof {
            done = done + self.kind.token_chars();
        }

        total = match write_str_counted(writer, " ", total, Ghost(entry), Ghost(done)) {
            Ok(t) => t,
            Err(e) => {
                proof {
                    let rest = " "@ + null_clause_chars(self.options.null) + primary_key_chars(
                        self.options.primary_key,
                    ) + unique_chars(self.options.unique);
                    assert(target =~= done + rest);
                    lemma_take_of_concat(done, rest);
                    lemma_aborted_at_prefix(entry, writer.contents(), done, target);
                }
                return Err(e)
            },
        };
        proof {
            done = done + " "@;
        }

        if let Some(null_constraint) = self.options.null {
            let value = if null_constraint {
                "NULL "
            } else {
                "NOT NULL "
            };
            total = match write_str_counted(writer, value, total, Ghost(entry), Ghost(done)) {
                Ok(t) => t,
                Err(e) => {
                    proof {
                        let rest = null_clause_chars(self.options.null) + primary_key_chars(
                            self.options.primary_key,
                        ) + unique_chars(self.options.unique);
                        assert(target =~= done + rest);
                        lemma_take_of_concat(done, rest);
                        lemma_aborted_at_prefix(entry, writer.contents(), done, target);
                    }
                    return Err(e)
                },
            };
            proof {
                done = done + value@;
            }
        }
        proof {
            assert(done =~= self.options.name@ + " "@ + self.kind.token_chars() + " "@
                + null_clause_chars(self.options.null));
        }

        if self.options.primary_key {
            total = match write_str_counted(
                writer,
                "PRIMARY KEY ",
                total,
                Ghost(entry),
                Ghost(done),
            ) {
                Ok(t) => t,
                Err(e) => {
                    proof {
                        let rest = primary_key_chars(self.options.primary_key) + unique_chars(
                            self.options.unique,
                        );
                        assert(target =~= done + rest);
                        lemma_take_of_concat(done, rest);
                        lemma_aborted_at_prefix(entry, writer.contents(), done, target);
                    }
                    return Err(e)
                },
            };
            proof {
                done = done + "PRIMARY KEY "@;
            }
        }

        if self.options.unique {
            total = match write_str_counted(writer, "UNIQUE ", total, Ghost(entry), Ghost(done)) {
                Ok(t) => t,
                Err(e) => {
                    proof {
                        let rest = unique_chars(self.options.unique);
                        assert(target =~= done + rest);
                        lemma_take_of_concat(done, rest);
                        lemma_aborted_at_prefix(entry, writer.contents(), done, target);
                    }
                    return Err(e)
                },
            };
            proof {
                done = done + "UNIQUE "@;
            }
        }

        proof {
            assert(done =~= self.clause_chars());
        }
        Ok(total)
    }
}

/// A bare symbolic table-kind tag; its rendering is its textual name fully
/// uppercased.
#[derive(Debug)]
pub enum TableKind {
    Global,
    Local,
}

impl TableKind {
    /// The uppercased textual name of the tag.
    pub open spec fn tag_chars(&self) -> Seq<char> {
        match self {
            TableKind::Global => "GLOBAL"@,
            TableKind::Local => "LOCAL"@,
        }
    }
}

impl IntoSql<Pg> for TableKind {
    open spec fn sql_chars(&self) -> Seq<char> {
        self.tag_chars()
    }

    fn into_sql<W: ByteSink>(&self, writer: &mut W) -> (r: Result<usize, RenderError>) {
        let v = match self {
            TableKind::Global => "GLOBAL".as_bytes_vec(),
            TableKind::Local => "LOCAL".as_bytes_vec(),
        };
        match writer.write(v.as_slice()) {
            Ok(n) => Ok(n),
            Err(e) => {
                proof {
                    lemma_aborted_none(old(writer).contents(), self.tag_chars());
                }
                Err(e)
            },
        }
    }
}

/// The default rendering of a bare string-like token lacking a structured
/// representation: its text fully uppercased.
impl IntoSql<Pg> for String {
    open spec fn sql_chars(&self) -> Seq<char> {
        upper_of(self@)
    }

    fn into_sql<W: ByteSink>(&self, writer: &mut W) -> (r: Result<usize, RenderError>) {
        let upper = to_uppercase(self.as_str());
        match writer.write(upper.as_str().as_bytes()) {
            Ok(n) => Ok(n),
            Err(e) => {
                proof {
                    lemma_aborted_none(old(writer).contents(), upper_of(self@));
                }
                Err(e)
            },
        }
    }
}

/// Table-level options: the table's name, the "if not exists" guard, and an
/// optional kind tag whose absence omits the kind clause entirely.
#[derive(Debug)]
pub struct CommonTableOptions {
    pub name: String,
    pub if_not_exists: bool,
    pub kind: Option<TableKind>,
}

/// The kind clause, trailing space included: empty when no kind tag is
/// present.
pub open spec fn kind_clause_chars(kind: Option<TableKind>) -> Seq<char> {
    match kind {
        None => Seq::empty(),
        Some(k) => k.tag_chars() + " "@,
    }
}

/// The existence-guard clause, leading space included: empty when the flag
/// is off.
pub open spec fn if_not_exists_chars(if_not_exists: bool) -> Seq<char> {
    if if_not_exists {
        " IF NOT EXISTS"@
    } else {
        Seq::empty()
    }
}

/// The column clauses joined by the comma-newline-tab separator: the
/// separator stands between consecutive clauses only, never after the last.
pub open spec fn joined_chars(fields: Seq<TableField>) -> Seq<char>
    decreases fields.len(),
{
    if fields.len() == 0 {
        Seq::empty()
    } else if fields.len() == 1 {
        fields[0].clause_chars()
    } else {
        joined_chars(fields.drop_last()) + ",\n\t"@ + fields.last().clause_chars()
    }
}

/// Splitting the join: the join of all the clauses begins with the join of
/// the first `i`, then the separator when clauses stand on both sides, then
/// the clause of column `i`, then the join's remainder.
proof fn lemma_joined_split(fields: Seq<TableField>, i: int) -> (rest: Seq<char>)
    requires
        0 <= i < fields.len(),
    ensures
        joined_chars(fields) == joined_chars(fields.take(i)) + (if i > 0 {
            ",\n\t"@
        } else {
            Seq::<char>::empty()
        }) + fields[i].clause_chars() + rest,
    decreases fields.len() - i,
{
    if i == fields.len() - 1 {
        if fields.len() == 1 {
            assert(joined_chars(fields.take(0)) =~= Seq::<char>::empty());
            assert(joined_chars(fields) =~= joined_chars(fields.take(0)) + Seq::<char>::empty()
                + fields[0].clause_chars() + Seq::<char>::empty());
        } else {
            assert(fields.drop_last() =~= fields.take(i));
            assert(joined_chars(fields) =~= joined_chars(fields.take(i)) + ",\n\t"@
                + fields[i].clause_chars() + Seq::<char>::empty());
        }
        Seq::<char>::empty()
    } else {
        let tail = lemma_joined_split(fields, i + 1);
        let p = fields.take(i + 1);
        assert(p.drop_last() =~= fields.take(i));
        assert(p.last() == fields[i]);
        if i == 0 {
            assert(joined_chars(fields.take(0)) =~= Seq::<char>::empty());
        }
        let rest = ",\n\t"@ + fields[i + 1].clause_chars() + tail;
        assert(joined_chars(fields) =~= joined_chars(fields.take(i)) + (if i > 0 {
            ",\n\t"@
        } else {
            Seq::<char>::empty()
        }) + fields[i].clause_chars() + rest);
        rest
    }
}

/// A full table definition: an ordered sequence of column descriptors plus
/// table-level options.
pub struct TableDefn {
    pub fields: Vec<TableField>,
    pub options: CommonTableOptions,
}

impl TableDefn {
    /// The full `CREATE TABLE` statement: `CREATE `, the optional kind tag,
    /// the table name, the optional existence guard, then the column clauses
    /// between ` (\n\t` and `\n)`.
    pub open spec fn statement_chars(&self) -> Seq<char> {
        "CREATE "@ + kind_clause_chars(self.options.kind) + self.options.name@
            + if_not_exists_chars(self.options.if_not_exists) + " (\n\t"@ + joined_chars(
            self.fields@,
        ) + "\n)"@
    }
}

/// The statement's opening: `CREATE `, the kind clause, the table name, the
/// existence guard, and the body's opening punctuation.
spec fn head_chars(options: CommonTableOptions) -> Seq<char> {
    "CREATE "@ + kind_clause_chars(options.kind) + options.name@ + if_not_exists_chars(
        options.if_not_exists,
    ) + " (\n\t"@
}

/// Writes the statement's opening into the sink, returning the bytes
/// written; `tail` is the text that follows the opening in the whole
/// statement, for the failure clause.
#[verifier::rlimit(60)]
fn write_table_head<W: ByteSink>(
    options: &CommonTableOptions,
    writer: &mut W,
    Ghost(tail): Ghost<Seq<char>>,
) -> (r: Result<usize, RenderError>)
    ensures
        r matches Ok(t) ==> final(writer).contents() == old(writer).contents() + encode_utf8(
            head_chars(*options),
        ) && t == encode_utf8(head_chars(*options)).len() && final(writer).contents().len()
            <= usize::MAX,
        r matches Err(e) ==> e is SinkWrite && aborted_render(
            old(writer).contents(),
            final(writer).contents(),
            head_chars(*options) + tail,
        ),
{
    let ghost entry = writer.contents();
    let ghost mut done: Seq<char> = Seq::empty();
    let ghost target = head_chars(*options) + tail;
    let mut total: usize = 0;

    total = match write_str_counted(writer, "CREATE ", total, Ghost(entry), Ghost(done)) {
        Ok(t) => t,
        Err(e) => {
            proof {
                assert(target =~= done + target);
                lemma_take_of_concat(done, target);
                lemma_aborted_at_prefix(entry, writer.contents(), done, target);
            }
            return Err(e)
        },
    };
    proof {
        done = done + "CREATE "@;
    }

    if let Some(kind) = &options.kind {
        total = match write_child_counted(kind, writer, total, Ghost(entry), Ghost(done)) {
            Ok(t) => t,
            Err(e) => {
                proof {
                    let rest = " "@ + options.name@ + if_not_exists_chars(options.if_not_exists)
                        + " (\n\t"@ + tail;
                    assert(target =~= (done + kind.tag_chars()) + rest);
                    lemma_take_of_concat(done + kind.tag_chars(), rest);
                    lemma_aborted_in_child(entry, writer.contents(), done, kind.tag_chars(), target);
                }
                return Err(e)
            },
        };
        proof {
            done = done + kind.tag_chars();
        }

        total = match write_str_counted(writer, " ", total, Ghost(entry), Ghost(done)) {
            Ok(t) => t,
            Err(e) => {
                proof {
                    let rest = " "@ + options.name@ + if_not_exists_chars(options.if_not_exists)
                        + " (\n\t"@ + tail;
                    assert(target =~= done + rest);
                    lemma_take_of_concat(done, rest);
                    lemma_aborted_at_prefix(entry, writer.contents(), done, target);
                }
                return Err(e)
            },
        };
        proof {
            done = done + " "@;
        }
    }
    proof {
        assert(done =~= "CREATE "@ + kind_clause_chars(options.kind));
    }

    total = match write_str_counted(writer, options.name.as_str(), total, Ghost(entry), Ghost(done)) {
        Ok(t) => t,
        Err(e) => {
            proof {
                let rest = options.name@ + if_not_exists_chars(options.if_not_exists) + " (\n\t"@
                    + tail;
                assert(target =~= done + rest);
                lemma_take_of_concat(done, rest);
                lemma_aborted_at_prefix(entry, writer.contents(), done, target);
            }
            return Err(e)
        },
    };
    proof {
        done = done + options.name@;
    }

    if options.if_not_exists {
        total = match write_str_counted(writer, " IF NOT EXISTS", total, Ghost(entry), Ghost(done)) {
            Ok(t) => t,
            Err(e) => {
                proof {
                    let rest = if_not_exists_chars(options.if_not_exists) + " (\n\t"@ + tail;
                    assert(target =~= done + rest);
                    lemma_take_of_concat(done, rest);
                    lemma_aborted_at_prefix(entry, writer.contents(), done, target);
                }
                return Err(e)
            },
        };
        proof {
            done = done + " IF NOT EXISTS"@;
        }
    }

    total = match write_str_counted(writer, " (\n\t", total, Ghost(entry), Ghost(done)) {
        Ok(t) => t,
        Err(e) => {
            proof {
                let rest = " (\n\t"@ + tail;
                assert(target =~= done + rest);
                lemma_take_of_concat(done, rest);
                lemma_aborted_at_prefix(entry, writer.contents(), done, target);
            }
            return Err(e)
        },
    };
    proof {
        done = done + " (\n\t"@;
        assert(done =~= head_chars(*options));
    }
    Ok(total)
}

/// Writes the column clauses joined by the separator into the sink,
/// extending the running byte count; `target` is the whole text whose
/// completed leading part the sink holds if a write fails.
#[verifier::rlimit(60)]
fn write_joined_fields<W: ByteSink>(
    fields: &Vec<TableField>,
    writer: &mut W,
    total: usize,
    Ghost(entry): Ghost<Seq<u8>>,
    Ghost(done): Ghost<Seq<char>>,
    Ghost(target): Ghost<Seq<char>>,
) -> (r: Result<usize, RenderError>)
    requires
        old(writer).contents() == entry + encode_utf8(done),
        old(writer).contents().len() <= usize::MAX,
        entry.len() + total == old(writer).contents().len(),
        target == done + joined_chars(fields@) + "\n)"@,
    ensures
        r matches Ok(t) ==> final(writer).contents() == entry + encode_utf8(
            done + joined_chars(fields@),
        ) && entry.len() + t == final(writer).contents().len() && t == total + encode_utf8(
            joined_chars(fields@),
        ).len() && final(writer).contents().len() <= usize::MAX,
        r matches Err(e) ==> e is SinkWrite && aborted_render(
            entry,
            final(writer).contents(),
            target,
        ),
{
    let ghost mut cur: Seq<char> = done;
    let mut count = total;
    let num_fields = fields.len();
    let mut index: usize = 0;
    while index < num_fields
        invariant
            index <= num_fields,
            num_fields == fields@.len(),
            target == done + joined_chars(fields@) + "\n)"@,
            cur == done + joined_chars(fields@.take(index as int)),
            writer.contents() == entry + encode_utf8(cur),
            writer.contents().len() <= usize::MAX,
            entry.len() + count == writer.contents().len(),
        decreases num_fields - index,
    {
        if index > 0 {
            count = match write_str_counted(writer, ",\n\t", count, Ghost(entry), Ghost(cur)) {
                Ok(t) => t,
                Err(e) => {
                    proof {
                        let tail = lemma_joined_split(fields@, index as int);
                        let rest = ",\n\t"@ + fields@[index as int].clause_chars() + tail
                            + "\n)"@;
                        assert(target =~= cur + rest);
                        lemma_take_of_concat(cur, rest);
                        lemma_aborted_at_prefix(entry, writer.contents(), cur, target);
                    }
                    return Err(e)
                },
            };
            proof {
                cur = cur + ",\n\t"@;
            }
        }
        let field = &fields[index];
        count = match write_child_counted(field, writer, count, Ghost(entry), Ghost(cur)) {
            Ok(t) => t,
            Err(e) => {
                proof {
                    let tail = lemma_joined_split(fields@, index as int);
                    assert(target =~= (cur + field.clause_chars()) + (tail + "\n)"@));
                    lemma_take_of_concat(cur + field.clause_chars(), tail + "\n)"@);
                    lemma_aborted_in_child(
                        entry,
                        writer.contents(),
                        cur,
                        field.clause_chars(),
                        target,
                    );
                }
                return Err(e)
            },
        };
        proof {
            cur = cur + field.clause_chars();
            let fs = fields@;
            assert(fs.take(index + 1).drop_last() =~= fs.take(index as int));
            assert(fs.take(index + 1).last() == fs[index as int]);
            if index == 0 {
                assert(cur =~= done + joined_chars(fs.take(1)));
            } else {
                assert(cur =~= done + joined_chars(fs.take(index + 1)));
            }
        }
        index = index + 1;
    }
    proof {
        assert(fields@.take(num_fields as int) =~= fields@);
        lemma_encode_utf8_concat(done, joined_chars(fields@));
    }
    Ok(count)
}

impl IntoSql<Pg> for TableDefn {
    open spec fn sql_chars(&self) -> Seq<char> {
        self.statement_chars()
    }

    fn into_sql<W: ByteSink>(&self, writer: &mut W) -> (r: Result<usize, RenderError>) {
        let ghost entry = writer.contents();
        let ghost target = self.statement_chars();
        proof {
            assert(target =~= head_chars(self.options) + (joined_chars(self.fields@) + "\n)"@));
        }

        let mut total = match write_table_head(
            &self.options,
            writer,
            Ghost(joined_chars(self.fields@) + "\n)"@),
        ) {
            Ok(t) => t,
            Err(e) => { return Err(e) },
        };
        let ghost mut done = head_chars(self.options);

        total = match write_joined_fields(
            &self.fields,
            writer,
            total,
            Ghost(entry),
            Ghost(done),
            Ghost(target),
        ) {
            Ok(t) => t,
            Err(e) => { return Err(e) },
        };
        proof {
            done = done + joined_chars(self.fields@);
        }

        total = match write_str_counted(writer, "\n)", total, Ghost(entry), Ghost(done)) {
            Ok(t) => t,
            Err(e) => {
                proof {
                    assert(target =~= done + "\n)"@);
                    lemma_take_of_concat(done, "\n)"@);
                    lemma_aborted_at_prefix(entry, writer.contents(), done, target);
                }
                return Err(e)
            },
        };
        proof {
            done = done + "\n)"@;
            assert(done =~= self.statement_chars());
        }
        Ok(total)
    }
}

} // verus!
