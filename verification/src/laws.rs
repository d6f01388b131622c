//! Laws of the renderer, stated and proved over the same spec functions the
//! rendering contracts use.

use vstd::prelude::*;
use vstd::utf8::encode_utf8;
use crate::fields::{
    Backend, IntoSql, TableDefn, TableField, if_not_exists_chars, joined_chars, kind_clause_chars,
    null_clause_chars, primary_key_chars, unique_chars,
};

verus! {

/// Determinism: the bytes a successful render appends to a sink are a
/// function of the rendered entity alone, so two successful renders of the
/// same value — whatever the sinks already held — append byte-identical
/// output.
pub proof fn lemma_render_deterministic<B: Backend, T: IntoSql<B>>(
    entity: &T,
    before1: Seq<u8>,
    after1: Seq<u8>,
    before2: Seq<u8>,
    after2: Seq<u8>,
)
    requires
        after1 == before1 + encode_utf8(entity.sql_chars()),
        after2 == before2 + encode_utf8(entity.sql_chars()),
    ensures
        after1.skip(before1.len() as int) == after2.skip(before2.len() as int),
{
    assert(after1.skip(before1.len() as int) =~= encode_utf8(entity.sql_chars()));
    assert(after2.skip(before2.len() as int) =~= encode_utf8(entity.sql_chars()));
}

/// Clause omission: a column clause is its name, a space, its type token, a
/// space, its nullability clause, and its constraint clauses, in that order;
/// the nullability clause is empty exactly when nullability is unspecified,
/// is exactly the one token `NULL ` exactly when nullable, and exactly the
/// one token `NOT NULL ` exactly when not nullable — never both.
pub proof fn lemma_clause_omission(field: &TableField)
    ensures
        field.clause_chars() == field.options.name@ + " "@ + field.kind.token_chars() + " "@
            + null_clause_chars(field.options.null) + primary_key_chars(field.options.primary_key)
            + unique_chars(field.options.unique),
        field.options.null is None <==> null_clause_chars(field.options.null) == Seq::<
            char,
        >::empty(),
        field.options.null == Some(true) <==> null_clause_chars(field.options.null) == "NULL "@,
        field.options.null == Some(false) <==> null_clause_chars(field.options.null)
            == "NOT NULL "@,
        "NULL "@ != "NOT NULL "@ && "NULL "@.len() > 0 && "NOT NULL "@.len() > 0,
{
    reveal_strlit("NULL ");
    reveal_strlit("NOT NULL ");
}

/// The pieces of a table body, in order: the column clauses at even
/// positions, with one comma-newline-tab separator element between
/// consecutive clauses, at the odd positions.
pub open spec fn body_pieces(fields: Seq<TableField>) -> Seq<Seq<char>>
    decreases fields.len(),
{
    if fields.len() == 0 {
        Seq::empty()
    } else if fields.len() == 1 {
        seq![fields[0].clause_chars()]
    } else {
        body_pieces(fields.drop_last()).push(",\n\t"@).push(fields.last().clause_chars())
    }
}

/// Field separator: the rendered body is the concatenation of the column
/// clauses with exactly one separator between consecutive clauses — N − 1
/// separators for N ≥ 1 columns, at the odd positions of the piece list —
/// and no separator after the final clause, which is the last piece.
pub proof fn lemma_field_separator(fields: Seq<TableField>)
    ensures
        joined_chars(fields) == body_pieces(fields).flatten(),
        body_pieces(fields).len() == (if fields.len() == 0 {
            0int
        } else {
            2 * fields.len() - 1
        }),
        forall|i: int|
            0 <= i < body_pieces(fields).len() ==> body_pieces(fields)[i] == (if i % 2 == 1 {
                ",\n\t"@
            } else {
                fields[i / 2].clause_chars()
            }),
    decreases fields.len(),
{
    body_pieces(fields).lemma_flatten_and_flatten_alt_are_equivalent();
    if fields.len() == 0 {
    } else if fields.len() == 1 {
        let pieces = body_pieces(fields);
        assert(pieces.drop_last() =~= Seq::<Seq<char>>::empty());
        assert(Seq::<Seq<char>>::empty().flatten_alt() =~= Seq::<char>::empty());
        assert(pieces.flatten_alt() =~= fields[0].clause_chars());
    } else {
        lemma_field_separator(fields.drop_last());
        let prev = body_pieces(fields.drop_last());
        prev.lemma_flatten_and_flatten_alt_are_equivalent();
        let with_sep = prev.push(",\n\t"@);
        let pieces = body_pieces(fields);
        assert(pieces.drop_last() =~= with_sep);
        assert(pieces.last() == fields.last().clause_chars());
        assert(pieces.flatten_alt() == with_sep.flatten_alt() + fields.last().clause_chars());
        assert(with_sep.drop_last() =~= prev);
        assert(with_sep.last() == ",\n\t"@);
        assert(with_sep.flatten_alt() == prev.flatten_alt() + ",\n\t"@);
        assert(prev.flatten_alt() == joined_chars(fields.drop_last()));
        assert(joined_chars(fields) =~= pieces.flatten_alt());
    }
}

/// Kind omission: the statement is `CREATE `, the kind clause, the table
/// name, the existence guard, and the parenthesized body, in that order; the
/// kind clause is empty exactly when no kind tag is present, so with
/// `kind = None` the table name follows `CREATE ` immediately.
pub proof fn lemma_kind_omission(table: &TableDefn)
    ensures
        table.statement_chars() == "CREATE "@ + kind_clause_chars(table.options.kind)
            + table.options.name@ + if_not_exists_chars(table.options.if_not_exists) + " (\n\t"@
            + joined_chars(table.fields@) + "\n)"@,
        table.options.kind is None <==> kind_clause_chars(table.options.kind) == Seq::<
            char,
        >::empty(),
{
    reveal_strlit(" ");
    if let Some(k) = table.options.kind {
        assert(kind_clause_chars(table.options.kind) == k.tag_chars() + " "@);
        assert(kind_clause_chars(table.options.kind).len() > 0);
    }
}

/// Composition of the two render operations: the byte count returned by a
/// render call equals the byte length of the UTF-8 encoding of the text that
/// the string-producing operation yields for the same entity.
pub proof fn lemma_count_matches_text<B: Backend, T: IntoSql<B>>(entity: &T, n: usize, text: Seq<char>)
    requires
        n == encode_utf8(entity.sql_chars()).len(),
        text == entity.sql_chars(),
    ensures
        n == encode_utf8(text).len(),
{
}

} // verus!
