use mermaid_inline::extract::{extract_mermaid_blocks, filter_by_index, MermaidBlock};

#[test]
fn single_block() {
    let md = "```mermaid\nflowchart TD\nA-->B\n```";
    let blocks = extract_mermaid_blocks(md);
    assert_eq!(blocks.len(), 1);
    assert!(blocks[0].code.contains("flowchart TD"));
}

#[test]
fn multiple_blocks() {
    let md = "```mermaid\nA-->B\n```\ntext\n```mermaid\nC-->D\n```";
    let blocks = extract_mermaid_blocks(md);
    assert_eq!(blocks.len(), 2);
    assert!(blocks[0].code.contains("A-->B"));
    assert!(blocks[1].code.contains("C-->D"));
}

#[test]
fn ignores_non_mermaid_blocks() {
    let md = "```rust\nfn main() {}\n```";
    let blocks = extract_mermaid_blocks(md);
    assert_eq!(blocks.len(), 0);
}

#[test]
fn no_blocks() {
    let md = "plain text only";
    let blocks = extract_mermaid_blocks(md);
    assert_eq!(blocks.len(), 0);
}

#[test]
fn extracts_from_markdown_fixture_file() {
    let md = "# Sample document\n\nSome prose first.\n\n```mermaid\nflowchart TD\n    Start --> Stop\n```\n\nMore prose between diagrams.\n\n```mermaid\nsequenceDiagram\n    Alice->>Bob: Hello\n```\n\nA code block that is not a diagram:\n\n```sh\necho hi\n```\n";
    let blocks = extract_mermaid_blocks(md);
    assert_eq!(blocks.len(), 2);
    assert!(blocks[0].code.contains("flowchart TD"));
    assert!(blocks[1].code.contains("sequenceDiagram"));
}

#[test]
fn ignores_fixture_without_mermaid_blocks() {
    let md = "# Sample document\n\nNo diagrams here.\n\n```rust\nfn main() {\n    println!(\"hello\");\n}\n```\n\n```\nplain fence\n```\n";
    let blocks = extract_mermaid_blocks(md);
    assert!(blocks.is_empty());
}

#[test]
fn body_excludes_fence_lines() {
    let md = "```mermaid\nflowchart TD\nA-->B\n```";
    let blocks = extract_mermaid_blocks(md);
    assert_eq!(blocks.len(), 1);
    assert_eq!(blocks[0].index, 1);
    assert_eq!(blocks[0].code, "flowchart TD\nA-->B");
}

#[test]
fn two_blocks_have_ordered_indices_and_own_bodies() {
    let md = "intro\n```mermaid\nA-->B\n```\nprose in the middle\n```mermaid\nC-->D\n```\ntail";
    let blocks = extract_mermaid_blocks(md);
    assert_eq!(blocks.len(), 2);
    assert_eq!(blocks[0].index, 1);
    assert_eq!(blocks[1].index, 2);
    assert_eq!(blocks[0].code, "A-->B");
    assert_eq!(blocks[1].code, "C-->D");
}

#[test]
fn trailing_whitespace_and_crlf_fences_match() {
    let md = "```mermaid \t\r\nA-->B\r\n```";
    let blocks = extract_mermaid_blocks(md);
    assert_eq!(blocks.len(), 1);
    assert_eq!(blocks[0].code, "A-->B");
}

#[test]
fn case_distinct_fence_tags_match() {
    let md = "```Mermaid\nA-->B\n```";
    let blocks = extract_mermaid_blocks(md);
    assert_eq!(blocks.len(), 1);
    assert_eq!(blocks[0].code, "A-->B");

    let md_upper = "```MERMAID\nC-->D\n```";
    let blocks_upper = extract_mermaid_blocks(md_upper);
    assert_eq!(blocks_upper.len(), 1);
    assert_eq!(blocks_upper[0].code, "C-->D");
}

#[test]
fn unrelated_tag_sharing_the_prefix_does_not_match() {
    let md = "```mermaidx\nA-->B\n```";
    let blocks = extract_mermaid_blocks(md);
    assert_eq!(blocks.len(), 0);
}

#[test]
fn unclosed_fence_yields_nothing() {
    let md = "```mermaid\nA-->B\nno closing fence";
    let blocks = extract_mermaid_blocks(md);
    assert_eq!(blocks.len(), 0);
}

#[test]
fn filter_keeps_only_the_requested_index() {
    let md = "```mermaid\nA-->B\n```\n\n```mermaid\nC-->D\n```";
    let blocks = extract_mermaid_blocks(md);
    let only = filter_by_index(blocks, 2);
    assert_eq!(only.len(), 1);
    assert_eq!(only[0].index, 2);
    assert_eq!(only[0].code, "C-->D");
}

#[test]
fn filter_out_of_range_yields_zero_blocks() {
    let md = "```mermaid\nA-->B\n```";
    let blocks = extract_mermaid_blocks(md);
    let none = filter_by_index(blocks, 5);
    assert!(none.is_empty());
    let md2 = "```mermaid\nA-->B\n```";
    let blocks2 = extract_mermaid_blocks(md2);
    let zero = filter_by_index(blocks2, 0);
    assert!(zero.is_empty());
}

#[test]
fn blocks_can_be_rebuilt_by_hand() {
    let b = MermaidBlock { index: 1, code: String::from("A-->B") };
    assert_eq!(b.index, 1);
    assert_eq!(b.code, "A-->B");
}
