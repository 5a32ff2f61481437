use q38::xml_tools::{extract_xml_tools, text_before_first};

#[test]
fn qwen_xml_function() {
    let content = "\
<tool_call>
<function=read>
<parameter=path>
note.txt
</parameter>
</function>
</tool_call>";
    let x = extract_xml_tools(content);
    assert!(!x.parse_fail(false));
    assert_eq!(x.calls.len(), 1);
    assert_eq!(x.calls[0].name, "read");
    assert_eq!(x.calls[0].arguments.text_at("path"), Some("note.txt"));
    assert!(text_before_first(content, &x.ranges).is_empty());
}

#[test]
fn json_inside_tool_call() {
    let content = r#"<tool_call>
{"name":"read","arguments":{"path":"note.txt"}}
</tool_call>"#;
    let x = extract_xml_tools(content);
    assert!(!x.parse_fail(false));
    assert_eq!(x.calls.len(), 1);
    assert_eq!(x.calls[0].name, "read");
    assert_eq!(x.calls[0].arguments.text_at("path"), Some("note.txt"));
}

#[test]
fn json_with_id_preserved() {
    let content =
        r#"<tool_call>{"id":"c9","name":"bash","arguments":{"command":"ls"}}</tool_call>"#;
    let x = extract_xml_tools(content);
    assert_eq!(x.calls[0].id, "c9");
    assert_eq!(x.calls[0].name, "bash");
}

#[test]
fn malformed_complete_block() {
    let content = "<tool_call>this is not a tool</tool_call>";
    let x = extract_xml_tools(content);
    assert!(x.malformed);
    assert!(x.parse_fail(false));
    assert!(x.calls.is_empty());
    assert!(!x.parse_fail(true));
}

#[test]
fn unclosed_is_parse_fail_unless_truncated() {
    let content = "<tool_call>\n<function=read>\n<parameter=path>\nnote";
    let x = extract_xml_tools(content);
    assert!(x.unclosed);
    assert!(x.parse_fail(false));
    assert!(!x.parse_fail(true));
    assert!(x.calls.is_empty());
}

#[test]
fn two_blocks() {
    let content = "\
<tool_call>
<function=read>
<parameter=path>
a.rs
</parameter>
</function>
</tool_call>
<tool_call>
<function=read>
<parameter=path>
b.rs
</parameter>
</function>
</tool_call>";
    let x = extract_xml_tools(content);
    assert_eq!(x.calls.len(), 2);
    assert_eq!(x.calls[0].arguments.text_at("path"), Some("a.rs"));
    assert_eq!(x.calls[1].arguments.text_at("path"), Some("b.rs"));
    assert!(text_before_first(content, &x.ranges).is_empty());
}

#[test]
fn extractor_is_think_unaware() {
    let content = "\
<think>
I might call read
<tool_call>
{\"name\":\"read\",\"arguments\":{\"path\":\"secret.rs\"}}
</tool_call>
</think>
I'll read it first
<tool_call>
{\"name\":\"read\",\"arguments\":{\"path\":\"note.txt\"}}
</tool_call>";
    let x = extract_xml_tools(content);
    assert_eq!(x.calls.len(), 2);
    assert_eq!(x.calls[0].arguments.text_at("path"), Some("secret.rs"));
    assert_eq!(x.calls[1].arguments.text_at("path"), Some("note.txt"));
}

#[test]
fn complete_tool_call_without_think_close() {
    let content =
        "<think>\nplan\n<tool_call>{\"name\":\"read\",\"arguments\":{\"path\":\"a.rs\"}}</tool_call>";
    let x = extract_xml_tools(content);
    assert_eq!(x.calls.len(), 1);
    assert_eq!(x.calls[0].arguments.text_at("path"), Some("a.rs"));
    assert!(!x.malformed);
    assert!(!x.unclosed);
}

#[test]
fn lenient_xml_missing_closing_tags() {
    let content = "\
<tool_call>
<function=read>
<parameter=path>
note.txt
</tool_call>";
    let x = extract_xml_tools(content);
    assert!(!x.parse_fail(false));
    assert_eq!(x.calls.len(), 1);
    assert_eq!(x.calls[0].name, "read");
    assert_eq!(x.calls[0].arguments.text_at("path"), Some("note.txt"));
}

#[test]
fn lenient_xml_several_parameters() {
    let content = "\
<tool_call>
<function=edit>
<parameter=path>
a.rs
<parameter=old_string>
x
<parameter=new_string>
y
</tool_call>";
    let x = extract_xml_tools(content);
    assert_eq!(x.calls.len(), 1);
    assert_eq!(x.calls[0].name, "edit");
    assert_eq!(x.calls[0].arguments.text_at("path"), Some("a.rs"));
    assert_eq!(x.calls[0].arguments.text_at("old_string"), Some("x"));
    assert_eq!(x.calls[0].arguments.text_at("new_string"), Some("y"));
}

#[test]
fn cited_tag_in_backticks_is_not_a_call() {
    let content = "xml_tools.rs 解析 `<tool_call>`。然后继续把适配度写完整，直到句号。";
    let x = extract_xml_tools(content);
    assert!(x.calls.is_empty());
    assert!(!x.had_tag());
    assert!(!x.unclosed);
    assert_eq!(text_before_first(content, &x.ranges), content);
}

#[test]
fn real_xml_after_prose_still_extracts() {
    let content = "先读文件。\n<tool_call>\n{\"name\":\"read\",\"arguments\":{\"path\":\"a.rs\"}}\n</tool_call>";
    let x = extract_xml_tools(content);
    assert_eq!(x.calls.len(), 1);
    assert_eq!(x.calls[0].name, "read");
    assert_eq!(text_before_first(content, &x.ranges), "先读文件。");
}
