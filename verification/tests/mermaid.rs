use velotype::mermaid::{
    is_mermaid_closing_fence, is_mermaid_info_string, parse_mermaid_fence_source,
    parse_mermaid_fence_start, strip_fence_indent, MermaidFence,
};
use velotype::mermaid_render::{
    looks_like_supported_mermaid_source, mermaid_cache_key, render_mermaid_to_svg,
    svg_render_outcome, MermaidError,
};

#[test]
fn detects_mermaid_info_string() {
    assert!(is_mermaid_info_string(Some("mermaid")));
    assert!(is_mermaid_info_string(Some("MMD title")));
    assert!(!is_mermaid_info_string(Some("rust")));
    assert!(!is_mermaid_info_string(None));
}

#[test]
fn parses_backtick_mermaid_fence() {
    let parsed = parse_mermaid_fence_source("```mermaid\nflowchart LR\nA --> B\n```")
        .expect("mermaid fence");
    assert_eq!(parsed.info, "mermaid");
    assert_eq!(parsed.body, "flowchart LR\nA --> B");
}

#[test]
fn parses_tilde_mmd_fence() {
    let parsed = parse_mermaid_fence_source("~~~MMD\nflowchart LR\nA --> B\n~~~")
        .expect("mermaid fence");
    assert_eq!(parsed.info, "MMD");
    assert_eq!(parsed.body, "flowchart LR\nA --> B");
}

#[test]
fn rejects_unclosed_mermaid_fence() {
    assert!(parse_mermaid_fence_source("```mermaid\nflowchart LR").is_none());
}

#[test]
fn cache_key_changes_with_source() {
    assert_ne!(
        mermaid_cache_key("flowchart LR\nA --> B"),
        mermaid_cache_key("flowchart LR\nA --> C")
    );
}

#[test]
fn renders_basic_flowchart_svg() {
    let svg = render_mermaid_to_svg("flowchart LR\nA --> B").expect("svg");
    assert!(svg.contains("<svg"));
    assert!(svg.contains("</svg>"));
}

#[test]
fn invalid_mermaid_returns_error() {
    assert!(render_mermaid_to_svg("not a real mermaid diagram ::::").is_err());
}

#[test]
fn unsupported_diagram_is_refused_before_rendering() {
    assert_eq!(
        render_mermaid_to_svg("not a real mermaid diagram ::::"),
        Err(MermaidError::UnsupportedDiagram)
    );
    assert_eq!(render_mermaid_to_svg(""), Err(MermaidError::UnsupportedDiagram));
}

#[test]
fn renderer_refusal_keeps_its_message() {
    match render_mermaid_to_svg("graph\n-->-->") {
        Err(MermaidError::Render(message)) => assert!(message.contains("-->-->")),
        other => panic!("unexpected {:?}", other),
    }
}

#[test]
fn syntax_error_picture_is_an_error() {
    assert_eq!(
        svg_render_outcome("<svg><text class=\"error-text\">x</text></svg>".to_string()),
        Err(MermaidError::SyntaxError)
    );
    assert_eq!(
        svg_render_outcome("<svg>Syntax error in text</svg>".to_string()),
        Err(MermaidError::SyntaxError)
    );
    assert_eq!(
        svg_render_outcome("<svg><g/></svg>".to_string()),
        Ok("<svg><g/></svg>".to_string())
    );
}

#[test]
fn supported_sources_skip_front_matter_and_comments() {
    assert!(looks_like_supported_mermaid_source("---\ntitle: x\n---\n%% note\n  Flowchart TD\n"));
    assert!(looks_like_supported_mermaid_source("\n\nsequenceDiagram\n"));
    assert!(looks_like_supported_mermaid_source("GRAPH LR"));
    assert!(!looks_like_supported_mermaid_source("---\nflowchart LR\n"));
    assert!(!looks_like_supported_mermaid_source("hello\nflowchart LR"));
    assert!(!looks_like_supported_mermaid_source("   \n%% only a comment\n"));
}

#[test]
fn cache_key_is_sixteen_lower_hex_digits_and_stable() {
    let key = mermaid_cache_key("flowchart LR\nA --> B");
    assert_eq!(key.len(), 16);
    assert!(key.chars().all(|c| c.is_ascii_digit() || ('a'..='f').contains(&c)));
    assert_eq!(key, mermaid_cache_key("flowchart LR\nA --> B"));
    let mut hasher = std::collections::hash_map::DefaultHasher::new();
    std::hash::Hash::hash("flowchart LR\nA --> B", &mut hasher);
    let expected = format!("{:016x}", std::hash::Hasher::finish(&hasher));
    assert_eq!(key, expected);
}

#[test]
fn opening_fences_need_three_markers_and_a_mermaid_word() {
    assert_eq!(
        parse_mermaid_fence_start("````mermaid extra"),
        Some(MermaidFence { marker: '`', len: 4 })
    );
    assert_eq!(
        parse_mermaid_fence_start("   ~~~ mmd  "),
        Some(MermaidFence { marker: '~', len: 3 })
    );
    assert_eq!(parse_mermaid_fence_start("    ```mermaid"), None);
    assert_eq!(parse_mermaid_fence_start("``mermaid"), None);
    assert_eq!(parse_mermaid_fence_start("```"), None);
    assert_eq!(parse_mermaid_fence_start("```mermaid `x`"), None);
    assert_eq!(
        parse_mermaid_fence_start("~~~mermaid `x`"),
        Some(MermaidFence { marker: '~', len: 3 })
    );
    assert_eq!(parse_mermaid_fence_start("```rust"), None);
}

#[test]
fn closing_fence_must_be_at_least_as_long() {
    let fence = MermaidFence { marker: '`', len: 4 };
    assert!(is_mermaid_closing_fence("````", fence));
    assert!(is_mermaid_closing_fence("  `````  ", fence));
    assert!(!is_mermaid_closing_fence("```", fence));
    assert!(!is_mermaid_closing_fence("~~~~", fence));
    assert!(!is_mermaid_closing_fence("```` x", fence));
    assert!(!is_mermaid_closing_fence("    ````", fence));
}

#[test]
fn fence_source_keeps_raw_and_info() {
    let parsed = parse_mermaid_fence_source("\n\n```mermaid  title \nA\n\nB\n````\n")
        .expect("mermaid fence");
    assert_eq!(parsed.raw, "```mermaid  title \nA\n\nB\n````");
    assert_eq!(parsed.info, "mermaid  title");
    assert_eq!(parsed.body, "A\n\nB");
    let empty_body = parse_mermaid_fence_source("```mermaid\n```").expect("mermaid fence");
    assert_eq!(empty_body.body, "");
    assert!(parse_mermaid_fence_source("```mermaid").is_none());
}

#[test]
fn fence_indent_is_stripped_up_to_three_spaces() {
    assert_eq!(strip_fence_indent("   ```"), Some("```".to_string()));
    assert_eq!(strip_fence_indent("```"), Some("```".to_string()));
    assert_eq!(strip_fence_indent("    ```"), None);
    assert_eq!(strip_fence_indent(""), Some(String::new()));
}

#[test]
fn fenced_blocks_read_back_their_body_and_info() {
    for (marker, open_len, close_len) in [('`', 3, 3), ('~', 4, 6), ('`', 5, 5)] {
        let info = "mermaid diagram";
        let body = "flowchart LR\n\n```\nA --> B";
        let raw = format!(
            "{}{}\n{}\n{}",
            marker.to_string().repeat(open_len),
            info,
            body,
            marker.to_string().repeat(close_len)
        );
        let parsed = parse_mermaid_fence_source(&raw).expect("mermaid fence");
        assert_eq!(parsed.raw, raw);
        assert_eq!(parsed.body, body);
        assert_eq!(parsed.info, info);
    }
}
