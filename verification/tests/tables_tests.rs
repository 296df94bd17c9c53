use chonker::document_understanding::{
    DocumentType, DocumentUnderstanding, EntityType, RelationType, Table as DetectedTable, TableCell as DetectedCell,
    TableRow,
};
use chonker::table_extractor::{table_to_markdown, Table, TableCell};
use chonker::table_extractor_v2::table_to_markdown as table_to_markdown_trimmed;
use chonker::table_extractor_v3::table_to_markdown as table_to_markdown_by_column;

fn cell(text: &str, row: usize, col: usize) -> TableCell {
    TableCell { text: text.to_string(), row, col }
}

fn detected(text: &str, numeric: bool) -> DetectedCell {
    DetectedCell { text: text.to_string(), row_idx: 0, col_idx: 0, row_span: 1, col_span: 1, is_numeric: numeric }
}

#[test]
fn markdown_pads_rows_to_widest() {
    let t = Table {
        cells: vec![
            vec![cell("Name", 0, 0), cell("Age", 0, 1)],
            vec![cell("Bob", 1, 0), cell("5", 1, 1), cell("x", 1, 2)],
        ],
    };
    assert_eq!(table_to_markdown(&t), "| Name | Age | |\n| --- | --- | --- |\n| Bob | 5 | x |\n");
}

#[test]
fn markdown_of_empty_table_is_empty() {
    let t = Table { cells: vec![] };
    assert_eq!(table_to_markdown(&t), "");
    assert_eq!(table_to_markdown_trimmed(&t), "");
    assert_eq!(table_to_markdown_by_column(&t), "");
}

#[test]
fn markdown_keeps_or_trims_cell_text() {
    let t = Table { cells: vec![vec![cell(" a ", 0, 0), cell("b\t", 0, 1)]] };
    assert_eq!(table_to_markdown(&t), "|  a  | b\t |\n| --- | --- |\n");
    assert_eq!(table_to_markdown_trimmed(&t), "| a | b |\n| --- | --- |\n");
}

#[test]
fn markdown_by_column_places_cells() {
    let t = Table {
        cells: vec![
            vec![cell(" H1 ", 0, 1)],
            vec![cell("x", 1, 0), cell("y", 1, 2)],
        ],
    };
    assert_eq!(
        table_to_markdown_by_column(&t),
        "|  | H1 |  |\n| --- | --- | --- |\n| x |  | y |\n"
    );
}

#[test]
fn markdown_by_column_later_cell_wins() {
    let t = Table { cells: vec![vec![cell("first", 0, 0), cell("second", 0, 0)]] };
    assert_eq!(table_to_markdown_by_column(&t), "| second |\n| --- |\n");
}

#[test]
fn document_markdown_lists_entities_and_tables() {
    let mut d = DocumentUnderstanding::new();
    d.add_entity('A', EntityType::Header);
    d.add_entity('$', EntityType::Value);
    d.add_entity('X', EntityType::Organization);
    d.add_entity('d', EntityType::Date);
    d.add_relation(0, 1, RelationType::LabelValue);
    d.metadata.document_type = DocumentType::Invoice;
    d.add_table(DetectedTable {
        rows: vec![
            TableRow { cells: vec![detected("Item", false), detected("Cost", false)], is_header: true },
            TableRow { cells: vec![detected("Tea", false), detected("3", true)], is_header: false },
        ],
        has_header: true,
    });
    assert_eq!(d.entities.len(), 4);
    assert_eq!(d.relations.len(), 1);
    assert_eq!(
        d.to_markdown(),
        "# Document Type: Invoice\n\n## Headers\n- A\n\n## Organizations\n- **X**\n\n## Values\n- `$`\n\n## Table\n\n| Item | Cost |\n| --- | --- |\n| Tea | `3` |\n\n"
    );
}

#[test]
fn document_markdown_table_without_header() {
    let mut d = DocumentUnderstanding::new();
    assert_eq!(d.to_markdown(), "# Document Type: Unknown\n\n");
    d.add_table(DetectedTable {
        rows: vec![TableRow { cells: vec![detected("7", true)], is_header: false }],
        has_header: false,
    });
    assert_eq!(d.to_markdown(), "# Document Type: Unknown\n\n## Table\n\n| 7 |\n\n");
}
