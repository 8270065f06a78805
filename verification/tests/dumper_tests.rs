use kya::dumper::ASTDumper;
use kya::lexer::Lexer;
use kya::parser::Parser;

fn dump(text: &str) -> String {
    let mut parser = Parser::new(Lexer::new(text.to_string()));
    let tree = parser.parse().unwrap();
    let mut dumper = ASTDumper::new();
    dumper.visit(&tree);
    dumper.output
}

#[test]
fn test_dump_identifier_and_string() {
    assert_eq!(dump("x\n'a'\n"), "Module(\n    Identifier(x)\n    StringLiteral(a)\n    )\n");
}

#[test]
fn test_dump_assignment_and_compare() {
    assert_eq!(
        dump("x = a == 1\n"),
        "Module(\n    Assignment(\nname:     Identifier(x)\n    Compare(\nleft:     Identifier(a)\noperator:     Equal\nright:     NumberLiteral(1)\n    )\n    )\n    )\n"
    );
}

#[test]
fn test_dump_call_and_attribute() {
    assert_eq!(
        dump("f(a.b)\n"),
        "Module(\n    MethodCall(\nname:     Identifier(f)\narguments: [    Attribute(\nname:     Identifier(a)\nvalue:     \"b\"\n    )\n    ]\n    )\n    )\n"
    );
}

#[test]
fn test_dump_definitions() {
    assert_eq!(
        dump("class A\ndef m\nend\nend\n"),
        "Module(\n    ClassDef(A)\nbody: [    MethodDef(m)\nbody: [    ]\n    ]\n    )\n"
    );
}

#[test]
fn test_accept_writes_the_same_dump() {
    let mut parser = Parser::new(Lexer::new("while a\nbreak\nend\n".to_string()));
    let tree = parser.parse().unwrap();
    let mut dumper = ASTDumper::new();
    tree.accept(&mut dumper);
    assert_eq!(
        dumper.output,
        "Module(\n    While(\ncondition:     Identifier(a)\nbody: [    Break\n    ]\n    )\n    )\n"
    );
}

#[test]
fn number_literals_show_as_their_value() {
    let cases: Vec<&str> = vec!["1.50", "2.0", "007", "1.", "0.0", "0.25", "10", "100.000", "3.14159", "000.5"];
    for literal in cases {
        let shown = format!("{}", literal.parse::<f64>().unwrap());
        assert_eq!(
            dump(&format!("{}\n", literal)),
            format!("Module(\n    NumberLiteral({})\n    )\n", shown),
            "literal {}",
            literal
        );
    }
}

#[test]
fn number_literals_show_as_the_texts_they_are_paired_with() {
    let text = "12345678901234567890\n0.1000000000000000055511151231257827\n7\n";
    let mut parser = Parser::new(Lexer::new(text.to_string()));
    let tree = parser.parse().unwrap();
    let literals = ["12345678901234567890", "0.1000000000000000055511151231257827"];
    let numbers: Vec<(String, String)> = literals
        .iter()
        .map(|l| (l.to_string(), l.parse::<f64>().unwrap().to_string()))
        .collect();
    let mut dumper = ASTDumper::with_numbers(numbers);
    dumper.visit(&tree);
    assert_eq!(
        dumper.output,
        "Module(\n    NumberLiteral(12345678901234567000)\n    NumberLiteral(0.1)\n    NumberLiteral(7)\n    )\n"
    );
}
