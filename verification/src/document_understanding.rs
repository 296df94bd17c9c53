//! What the layout analysis found on a page: entities, tables, relations
//! between entities, and the kind of document; and its Markdown form for
//! the reader view.
//!
//! The model keeps what the Markdown form reads: each entity's text and
//! kind, each table's rows of cells, and the document's kind.

use crate::table_extractor::{md_cell, md_rule_cells};
use crate::text_format::push_str;
use vstd::prelude::*;

verus! {

/// The kinds of entity that the analysis tells apart.
#[derive(Debug, Clone, Copy, PartialEq, Eq, Structural)]
pub enum EntityType {
    Value,
    Date,
    Organization,
    Location,
    Header,
    Footer,
    TableCell,
    TableHeader,
    FieldLabel,
    FieldValue,
    Text,
    Unknown,
}

/// A detected entity: its text and its kind.
pub struct Entity {
    pub text: String,
    pub entity_type: EntityType,
}

/// A detected table.
pub struct Table {
    pub rows: Vec<TableRow>,
    pub has_header: bool,
}

/// A row of a detected table.
pub struct TableRow {
    pub cells: Vec<TableCell>,
    pub is_header: bool,
}

/// A cell of a detected table.
pub struct TableCell {
    pub text: String,
    pub row_idx: usize,
    pub col_idx: usize,
    pub row_span: usize,
    pub col_span: usize,
    pub is_numeric: bool,
}

/// How two entities are related.
#[derive(Debug, Clone, Copy, PartialEq, Eq, Structural)]
pub enum RelationType {
    LabelValue,
    HeaderContent,
    TableRelation,
    Sequential,
}

/// A relation between two entities, given by their indices.
#[derive(Debug, Clone, Copy, PartialEq, Eq, Structural)]
pub struct EntityRelation {
    pub from_entity: usize,
    pub to_entity: usize,
    pub relation_type: RelationType,
}

/// The kinds of document that the analysis tells apart.
#[derive(Debug, Clone, Copy, PartialEq, Eq, Structural)]
pub enum DocumentType {
    Form,
    Report,
    Invoice,
    Contract,
    Letter,
    Table,
    Mixed,
    Unknown,
}

/// What is known of the document as a whole.
pub struct DocumentMetadata {
    pub detected_language: Option<String>,
    pub document_type: DocumentType,
}

/// Everything the analysis found on a page.
pub struct DocumentUnderstanding {
    pub entities: Vec<Entity>,
    pub tables: Vec<Table>,
    pub relations: Vec<EntityRelation>,
    pub reading_order: Vec<usize>,
    pub metadata: DocumentMetadata,
}

/// The name of a document kind.
pub open spec fn document_type_name(t: DocumentType) -> Seq<char> {
    match t {
        DocumentType::Form => "Form"@,
        DocumentType::Report => "Report"@,
        DocumentType::Invoice => "Invoice"@,
        DocumentType::Contract => "Contract"@,
        DocumentType::Letter => "Letter"@,
        DocumentType::Table => "Table"@,
        DocumentType::Mixed => "Mixed"@,
        DocumentType::Unknown => "Unknown"@,
    }
}

/// The texts of the entities of kind `ty`, in order.
pub open spec fn texts_of_type(es: Seq<Entity>, ty: EntityType) -> Seq<Seq<char>>
    decreases es.len(),
{
    if es.len() == 0 {
        Seq::empty()
    } else {
        let r = texts_of_type(es.drop_last(), ty);
        if es.last().entity_type == ty {
            r.push(es.last().text@)
        } else {
            r
        }
    }
}

/// A bulleted list: each text between `pre` and `post`, one per line.
pub open spec fn bullets(ts: Seq<Seq<char>>, pre: Seq<char>, post: Seq<char>) -> Seq<char>
    decreases ts.len(),
{
    if ts.len() == 0 {
        Seq::empty()
    } else {
        bullets(ts.drop_last(), pre, post) + "- "@ + pre + ts.last() + post + seq!['\n']
    }
}

/// A section listing the entities of kind `ty` under a heading, or nothing
/// when there are none.
pub open spec fn entity_section(
    es: Seq<Entity>,
    ty: EntityType,
    title: Seq<char>,
    pre: Seq<char>,
    post: Seq<char>,
) -> Seq<char> {
    let ts = texts_of_type(es, ty);
    if ts.len() == 0 {
        Seq::empty()
    } else {
        "## "@ + title + seq!['\n'] + bullets(ts, pre, post) + seq!['\n']
    }
}

/// A table cell in Markdown; numeric cells of the body are set as code.
pub open spec fn md_table_cell(c: TableCell, code_numbers: bool) -> Seq<char> {
    if code_numbers && c.is_numeric {
        " `"@ + c.text@ + "` |"@
    } else {
        md_cell(c.text@)
    }
}

/// The Markdown cells of a row, left to right.
pub open spec fn md_table_cells(cs: Seq<TableCell>, code_numbers: bool) -> Seq<char>
    decreases cs.len(),
{
    if cs.len() == 0 {
        Seq::empty()
    } else {
        md_table_cells(cs.drop_last(), code_numbers) + md_table_cell(cs.last(), code_numbers)
    }
}

/// The Markdown lines of rows, top to bottom.
pub open spec fn md_table_rows(rows: Seq<TableRow>, code_numbers: bool) -> Seq<char>
    decreases rows.len(),
{
    if rows.len() == 0 {
        Seq::empty()
    } else {
        md_table_rows(rows.drop_last(), code_numbers) + seq!['|'] + md_table_cells(
            rows.last().cells@,
            code_numbers,
        ) + seq!['\n']
    }
}

/// A table in Markdown under its own heading. With a header row, the
/// separator follows it and numeric body cells are set as code; without
/// one, every row is written as it is.
pub open spec fn md_detected_table(t: Table) -> Seq<char> {
    let rows = t.rows@;
    "## Table\n\n"@ + (if t.has_header && rows.len() > 0 {
        seq!['|'] + md_table_cells(rows[0].cells@, false) + "\n|"@ + md_rule_cells(
            rows[0].cells@.len(),
        ) + seq!['\n'] + md_table_rows(rows.subrange(1, rows.len() as int), true)
    } else {
        md_table_rows(rows, false)
    }) + seq!['\n']
}

/// The tables in Markdown, in order.
pub open spec fn md_detected_tables(ts: Seq<Table>) -> Seq<char>
    decreases ts.len(),
{
    if ts.len() == 0 {
        Seq::empty()
    } else {
        md_detected_tables(ts.drop_last()) + md_detected_table(ts.last())
    }
}

/// The Markdown form of a page: the document kind as a title, then the
/// headers, organizations (bold) and values (as code), then the tables.
pub open spec fn document_markdown(d: DocumentUnderstanding) -> Seq<char> {
    let es = d.entities@;
    "# Document Type: "@ + document_type_name(d.metadata.document_type) + "\n\n"@
        + entity_section(es, EntityType::Header, "Headers"@, Seq::empty(), Seq::empty())
        + entity_section(es, EntityType::Organization, "Organizations"@, "**"@, "**"@)
        + entity_section(es, EntityType::Value, "Values"@, "`"@, "`"@) + md_detected_tables(
        d.tables@,
    )
}

fn push_document_type(s: &mut String, t: DocumentType)
    ensures
        final(s)@ == old(s)@ + document_type_name(t),
{
    match t {
        DocumentType::Form => push_str(s, "Form"),
        DocumentType::Report => push_str(s, "Report"),
        DocumentType::Invoice => push_str(s, "Invoice"),
        DocumentType::Contract => push_str(s, "Contract"),
        DocumentType::Letter => push_str(s, "Letter"),
        DocumentType::Table => push_str(s, "Table"),
        DocumentType::Mixed => push_str(s, "Mixed"),
        DocumentType::Unknown => push_str(s, "Unknown"),
    }
}

/// A prefix has no more entities of a kind than the whole.
proof fn lemma_texts_of_prefix(es: Seq<Entity>, ty: EntityType, k: int)
    requires
        0 <= k <= es.len(),
    ensures
        texts_of_type(es.take(k), ty).len() <= texts_of_type(es, ty).len(),
    decreases es.len(),
{
    if k == es.len() {
        assert(es.take(k) == es);
    } else {
        assert(es.drop_last().take(k) == es.take(k));
        lemma_texts_of_prefix(es.drop_last(), ty, k);
    }
}

fn has_type(es: &Vec<Entity>, ty: EntityType) -> (b: bool)
    ensures
        b == (texts_of_type(es@, ty).len() > 0),
{
    let mut i: usize = 0;
    while i < es.len()
        invariant
            i <= es@.len(),
            texts_of_type(es@.take(i as int), ty).len() == 0,
        decreases es@.len() - i,
    {
        assert(es@.take(i + 1).drop_last() == es@.take(i as int));
        if es[i].entity_type == ty {
            proof {
                assert(es@.take(i + 1).last() == es@[i as int]);
                lemma_texts_of_prefix(es@, ty, i + 1);
            }
            return true;
        }
        i = i + 1;
    }
    assert(es@.take(i as int) == es@);
    false
}

fn push_entity_section(
    s: &mut String,
    es: &Vec<Entity>,
    ty: EntityType,
    title: &str,
    pre: &str,
    post: &str,
)
    ensures
        final(s)@ == old(s)@ + entity_section(es@, ty, title@, pre@, post@),
{
    if !has_type(es, ty) {
        assert(old(s)@ + Seq::<char>::empty() == old(s)@);
        return;
    }
    let ghost start = s@;
    push_str(s, "## ");
    push_str(s, title);
    s.push('\n');
    let ghost head = s@;
    let mut i: usize = 0;
    while i < es.len()
        invariant
            i <= es@.len(),
            s@ == head + bullets(texts_of_type(es@.take(i as int), ty), pre@, post@),
        decreases es@.len() - i,
    {
        assert(es@.take(i + 1).drop_last() == es@.take(i as int));
        assert(es@.take(i + 1).last() == es@[i as int]);
        if es[i].entity_type == ty {
            push_str(s, "- ");
            push_str(s, pre);
            push_str(s, es[i].text.as_str());
            push_str(s, post);
            s.push('\n');
            assert(texts_of_type(es@.take(i + 1), ty).drop_last() == texts_of_type(
                es@.take(i as int),
                ty,
            ));
            assert(s@ =~= head + bullets(texts_of_type(es@.take(i + 1), ty), pre@, post@));
        }
        i = i + 1;
    }
    assert(es@.take(i as int) == es@);
    s.push('\n');
    assert(s@ =~= start + entity_section(es@, ty, title@, pre@, post@));
}

fn push_table_cells(s: &mut String, cs: &Vec<TableCell>, code_numbers: bool)
    ensures
        final(s)@ == old(s)@ + md_table_cells(cs@, code_numbers),
{
    let ghost start = s@;
    let mut j: usize = 0;
    while j < cs.len()
        invariant
            j <= cs@.len(),
            s@ == start + md_table_cells(cs@.take(j as int), code_numbers),
        decreases cs@.len() - j,
    {
        assert(cs@.take(j + 1).drop_last() == cs@.take(j as int));
        assert(cs@.take(j + 1).last() == cs@[j as int]);
        if code_numbers && cs[j].is_numeric {
            push_str(s, " `");
            push_str(s, cs[j].text.as_str());
            push_str(s, "` |");
        } else {
            s.push(' ');
            push_str(s, cs[j].text.as_str());
            s.push(' ');
            s.push('|');
        }
        assert(s@ =~= start + md_table_cells(cs@.take(j + 1), code_numbers));
        j = j + 1;
    }
    assert(cs@.take(j as int) == cs@);
}

/// Appends the rows from index `from` on.
fn push_table_rows(s: &mut String, rows: &Vec<TableRow>, from: usize, code_numbers: bool)
    requires
        from <= rows@.len(),
    ensures
        final(s)@ == old(s)@ + md_table_rows(rows@.subrange(from as int, rows@.len() as int), code_numbers),
{
    let ghost start = s@;
    let mut i: usize = from;
    while i < rows.len()
        invariant
            from <= i <= rows@.len(),
            s@ == start + md_table_rows(rows@.subrange(from as int, i as int), code_numbers),
        decreases rows@.len() - i,
    {
        assert(rows@.subrange(from as int, i + 1).drop_last() == rows@.subrange(from as int, i as int));
        assert(rows@.subrange(from as int, i + 1).last() == rows@[i as int]);
        s.push('|');
        push_table_cells(s, &rows[i].cells, code_numbers);
        s.push('\n');
        assert(s@ =~= start + md_table_rows(rows@.subrange(from as int, i + 1), code_numbers));
        i = i + 1;
    }
}

fn push_rule_cells(s: &mut String, n: usize)
    ensures
        final(s)@ == old(s)@ + md_rule_cells(n as nat),
{
    let ghost start = s@;
    let mut k: usize = 0;
    while k < n
        invariant
            k <= n,
            s@ == start + md_rule_cells(k as nat),
        decreases n - k,
    {
        push_str(s, " --- |");
        assert(s@ =~= start + md_rule_cells((k + 1) as nat));
        k = k + 1;
    }
}

fn push_detected_table(s: &mut String, t: &Table)
    ensures
        final(s)@ == old(s)@ + md_detected_table(*t),
{
    let ghost start = s@;
    let ghost rows = t.rows@;
    push_str(s, "## Table\n\n");
    let ghost head = s@;
    if t.has_header && t.rows.len() > 0 {
        s.push('|');
        push_table_cells(s, &t.rows[0].cells, false);
        push_str(s, "\n|");
        push_rule_cells(s, t.rows[0].cells.len());
        s.push('\n');
        push_table_rows(s, &t.rows, 1, true);
    } else {
        push_table_rows(s, &t.rows, 0, false);
        assert(rows.subrange(0, rows.len() as int) == rows);
    }
    s.push('\n');
    assert(s@ =~= start + md_detected_table(*t));
}

impl DocumentUnderstanding {
    /// An empty result: no entities, tables, relations or reading order; the
    /// document's kind and language unknown.
    pub fn new() -> (d: Self)
        ensures
            d.entities@.len() == 0,
            d.tables@.len() == 0,
            d.relations@.len() == 0,
            d.reading_order@.len() == 0,
            d.metadata.detected_language is None,
            d.metadata.document_type == DocumentType::Unknown,
    {
        DocumentUnderstanding {
            entities: Vec::new(),
            tables: Vec::new(),
            relations: Vec::new(),
            reading_order: Vec::new(),
            metadata: DocumentMetadata { detected_language: None, document_type: DocumentType::Unknown },
        }
    }

    /// Adds an entity made of one character, of the given kind.
    pub fn add_entity(&mut self, unicode: char, entity_type: EntityType)
        ensures
            final(self).entities@.len() == old(self).entities@.len() + 1,
            final(self).entities@.drop_last() == old(self).entities@,
            final(self).entities@.last().text@ == seq![unicode],
            final(self).entities@.last().entity_type == entity_type,
            final(self).tables@ == old(self).tables@,
            final(self).relations@ == old(self).relations@,
            final(self).reading_order@ == old(self).reading_order@,
            final(self).metadata == old(self).metadata,
    {
        let mut text = String::new();
        text.push(unicode);
        self.entities.push(Entity { text, entity_type });
        assert(self.entities@.drop_last() == old(self).entities@);
    }

    /// Adds a table after the others.
    pub fn add_table(&mut self, table: Table)
        ensures
            final(self).tables@ == old(self).tables@.push(table),
            final(self).entities@ == old(self).entities@,
            final(self).relations@ == old(self).relations@,
            final(self).reading_order@ == old(self).reading_order@,
            final(self).metadata == old(self).metadata,
    {
        self.tables.push(table);
    }

    /// Adds a relation from entity `from` to entity `to`.
    pub fn add_relation(&mut self, from: usize, to: usize, rel_type: RelationType)
        ensures
            final(self).relations@ == old(self).relations@.push(
                EntityRelation { from_entity: from, to_entity: to, relation_type: rel_type },
            ),
            final(self).entities@ == old(self).entities@,
            final(self).tables@ == old(self).tables@,
            final(self).reading_order@ == old(self).reading_order@,
            final(self).metadata == old(self).metadata,
    {
        self.relations.push(EntityRelation { from_entity: from, to_entity: to, relation_type: rel_type });
    }

    /// The Markdown form of the page (see `document_markdown`).
    pub fn to_markdown(&self) -> (r: String)
        ensures
            r@ == document_markdown(*self),
    {
        let ghost es = self.entities@;
        let mut md = String::new();
        assert(md@ + "# Document Type: "@ == "# Document Type: "@);
        push_str(&mut md, "# Document Type: ");
        push_document_type(&mut md, self.metadata.document_type);
        push_str(&mut md, "\n\n");
        let ghost title = md@;
        assert(title == "# Document Type: "@ + document_type_name(self.metadata.document_type)
            + "\n\n"@);
        proof {
            reveal_strlit("");
        }
        assert(""@ == Seq::<char>::empty());
        push_entity_section(&mut md, &self.entities, EntityType::Header, "Headers", "", "");
        let ghost s1 = md@;
        assert(s1 == title + entity_section(es, EntityType::Header, "Headers"@, Seq::empty(), Seq::empty()));
        push_entity_section(&mut md, &self.entities, EntityType::Organization, "Organizations", "**", "**");
        push_entity_section(&mut md, &self.entities, EntityType::Value, "Values", "`", "`");
        let ghost head = md@;
        let mut i: usize = 0;
        while i < self.tables.len()
            invariant
                i <= self.tables@.len(),
                md@ == head + md_detected_tables(self.tables@.take(i as int)),
            decreases self.tables@.len() - i,
        {
            assert(self.tables@.take(i + 1).drop_last() == self.tables@.take(i as int));
            assert(self.tables@.take(i + 1).last() == self.tables@[i as int]);
            push_detected_table(&mut md, &self.tables[i]);
            assert(md@ =~= head + md_detected_tables(self.tables@.take(i + 1)));
            i = i + 1;
        }
        assert(self.tables@.take(i as int) == self.tables@);
        assert(md@ =~= document_markdown(*self));
        md
    }
}

} // verus!
