use hack_toolchain::compiler::error::CompileError;
use hack_toolchain::compiler::tree::{Node, Tree};
use hack_toolchain::compiler::walker::{parse_integer, Compiler};
use hack_toolchain::compiler::{compile_class, write_commands};
use hack_toolchain::vm::parser::Command;
use tree_sitter::{Parser, TreeCursor};

/// The nodes of the parser's tree as a table, first the node itself and
/// then its children.
fn add_node(cursor: &mut TreeCursor, source: &str, parent: Option<usize>, nodes: &mut Vec<Node>) -> usize {
    let node = cursor.node();
    let index = nodes.len();
    nodes.push(Node {
        kind: node.kind().to_string(),
        named: node.is_named(),
        extra: node.is_extra(),
        text: node.utf8_text(source.as_bytes()).unwrap().to_string(),
        parent,
        first_child: None,
        next_sibling: None,
    });
    if cursor.goto_first_child() {
        let mut previous: Option<usize> = None;
        loop {
            let child = add_node(cursor, source, Some(index), nodes);
            match previous {
                None => nodes[index].first_child = Some(child),
                Some(before) => nodes[before].next_sibling = Some(child),
            }
            previous = Some(child);
            if !cursor.goto_next_sibling() {
                break;
            }
        }
        cursor.goto_parent();
    }
    index
}

fn tree_of(source: &str) -> Tree {
    let mut parser = Parser::new();
    parser.set_language(tree_sitter_jack::language()).unwrap();
    let parsed = parser.parse(source, None).unwrap();
    let mut nodes = vec![];
    add_node(&mut parsed.walk(), source, None, &mut nodes);
    Tree { nodes }
}

fn compile(source: &str) -> Result<Vec<Command>, CompileError> {
    let tree = tree_of(source);
    let mut compiler = Compiler::new(&tree);
    let commands = compiler.compile()?;
    Ok(commands.to_vec())
}

fn name(s: &str) -> String {
    s.to_string()
}

/// A node without links.
fn node(kind: &str, named: bool, text: &str) -> Node {
    Node {
        kind: kind.to_string(),
        named,
        extra: false,
        text: text.to_string(),
        parent: None,
        first_child: None,
        next_sibling: None,
    }
}

#[test]
fn compiles_functions_with_calls() {
    let source = "class Main {\n\
                  \x20 function void main() {\n\
                  \x20   do Output.println();\n\
                  \x20 }\n\
                  \x20 // a second one\n\
                  \x20 function int twice(int a, int b) {\n\
                  \x20   do run();\n\
                  \x20 }\n\
                  }\n";
    assert_eq!(
        compile(source),
        Ok(vec![
            Command::Function(name("main"), 0),
            Command::Call(name("Output.println"), 1),
            Command::Function(name("twice"), 2),
            Command::Call(name("run"), 1),
        ])
    );
    assert_eq!(
        compile_class(&tree_of(source), "Main"),
        Ok(name("function Main.main 0\ncall Output.println 1\nfunction Main.twice 2\ncall run 1\n"))
    );
}

#[test]
fn compiles_the_first_statement_of_a_body() {
    let source = "class A { function void f() { do g(); do h(); } }";
    assert_eq!(
        compile(source),
        Ok(vec![Command::Function(name("f"), 0), Command::Call(name("g"), 1)])
    );
}

#[test]
fn compiles_a_class_without_members() {
    assert_eq!(compile("class Empty { }"), Ok(vec![]));
    assert_eq!(compile_class(&tree_of("class Empty { }"), "Empty"), Ok(name("")));
}

#[test]
fn rejects_what_it_does_not_know() {
    assert_eq!(
        compile("class A { field int x; }"),
        Err(CompileError::UnsupportedMember(name("field_declaration")))
    );
    assert_eq!(
        compile("class A { method void f() { do g(); } }"),
        Err(CompileError::UnsupportedMember(name("method_declaration")))
    );
    assert_eq!(
        compile("class A { function void f() { return; } }"),
        Err(CompileError::UnsupportedStatement(name("return_statement")))
    );
    assert_eq!(
        compile("class A { function void f() { } }"),
        Err(CompileError::Expected(name("statements")))
    );
    assert_eq!(
        compile("class A { function void f() { do g(1); } }"),
        Err(CompileError::UnsupportedExpression)
    );
    assert_eq!(
        compile("class A { function void f() { do g(x); } }"),
        Err(CompileError::UnsupportedTerm(name("identifier")))
    );
    assert_eq!(
        compile("class A { function void f() { do g(70000); } }"),
        Err(CompileError::InvalidNumber(name("70000")))
    );
    assert_eq!(
        CompileError::UnsupportedMember(name("field_declaration")).to_string(),
        "unsupported field_declaration class member"
    );
    assert_eq!(CompileError::Expected(name("statements")).to_string(), "expected statements");
    assert_eq!(
        CompileError::UnsupportedStatement(name("let_statement")).to_string(),
        "unsupported let_statement statement"
    );
    assert_eq!(CompileError::UnsupportedTerm(name("identifier")).to_string(), "unsupported identifier term");
    assert_eq!(CompileError::UnsupportedExpression.to_string(), "unsupported expression");
    assert_eq!(CompileError::InvalidNumber(name("70000")).to_string(), "invalid number 70000");
    assert_eq!(CompileError::Malformed.to_string(), "malformed syntax tree");
    assert_eq!(CompileError::TooManyParameters.to_string(), "too many parameters");
}

#[test]
fn rejects_a_root_that_is_no_class() {
    let tree = Tree { nodes: vec![node("comment", true, "// nothing")] };
    let mut compiler = Compiler::new(&tree);
    assert_eq!(
        compiler.compile().map(|c| c.len()),
        Err(CompileError::UnsupportedTopLevel(name("comment")))
    );
    assert_eq!(
        CompileError::UnsupportedTopLevel(name("comment")).to_string(),
        "unsupported comment at top level"
    );
}

#[test]
fn rejects_a_tree_whose_links_lead_nowhere() {
    let empty = Tree { nodes: vec![] };
    assert!(!empty.is_linked());
    assert_eq!(compile_class(&empty, "A"), Err(CompileError::Malformed));

    let mut root = node("class_declaration", true, "class A { }");
    root.first_child = Some(7);
    let tree = Tree { nodes: vec![root] };
    assert!(!tree.is_linked());
    assert_eq!(compile_class(&tree, "A"), Err(CompileError::Malformed));

    let mut root = node("class_declaration", true, "class A { }");
    root.next_sibling = Some(0);
    let tree = Tree { nodes: vec![root] };
    assert!(!tree.is_linked());
    assert_eq!(compile_class(&tree, "A"), Err(CompileError::Malformed));

    let mut root = node("class_declaration", true, "class A { }");
    root.parent = Some(1);
    let tree = Tree { nodes: vec![root] };
    assert!(!tree.is_linked());

    assert!(tree_of("class A { function void f() { do g(); } }").is_linked());
}

#[test]
fn misses_the_parts_of_a_class() {
    let tree = Tree { nodes: vec![node("class_declaration", true, "class")] };
    assert_eq!(compile_class(&tree, "A"), Err(CompileError::Expected(name("class_body"))));

    let mut root = node("class_declaration", true, "class A { f }");
    root.first_child = Some(1);
    let mut body = node("class_body", true, "{ f }");
    body.parent = Some(0);
    body.first_child = Some(2);
    let mut function = node("function_declaration", true, "f");
    function.parent = Some(1);
    let tree = Tree { nodes: vec![root, body, function] };
    assert!(tree.is_linked());
    assert_eq!(compile_class(&tree, "A"), Err(CompileError::Expected(name("identifier"))));
}

#[test]
fn reads_integer_constants() {
    assert_eq!(parse_integer("0"), Some(0));
    assert_eq!(parse_integer("42"), Some(42));
    assert_eq!(parse_integer("+42"), Some(42));
    assert_eq!(parse_integer("007"), Some(7));
    assert_eq!(parse_integer("65535"), Some(65535));
    assert_eq!(parse_integer("65536"), None);
    assert_eq!(parse_integer(""), None);
    assert_eq!(parse_integer("+"), None);
    assert_eq!(parse_integer("-1"), None);
    assert_eq!(parse_integer("4 2"), None);
    assert_eq!(parse_integer("++1"), None);
    for text in ["0", "42", "+42", "007", "65535", "65536", "", "+", "-1", "4 2", "++1", "1e3"] {
        assert_eq!(parse_integer(text), text.parse::<u16>().ok());
    }
}

#[test]
fn writes_each_command_on_a_line() {
    let commands = vec![
        Command::Function(name("main"), 0),
        Command::Call(name("Math.abs"), 1),
        Command::Add,
    ];
    assert_eq!(write_commands(&commands, "Main"), "function Main.main 0\ncall Math.abs 1\nadd\n");
    assert_eq!(write_commands(&[], "Main"), "");
}
