use oatmilk::parser::parse_program;
use oatmilk::symbol::Interner;
use oatmilk::tokens::Token;
use oatmilk::write::{program_tokens, tokens_to_text};

const SOURCES: [&str; 4] = [
    "struct empty {}\nvoid f() { }",
    "int main() { return 42; }",
    "struct point { int x; int y; }  int dist(point p) { return p.x + p.y; }",
    "global limit = -10;
     global title = \"a \\\"quoted\\\" line\\n\";
     global none = int[] null;
     struct node { int value; node? next; (int, bool) -> void visit; }
     int sum(int[] v, node? n) {
         var total = 0;
         for (var i = 0, j = 1; i < length(v) & true; i = i + j) {
             total = total + v[i] * 2 - 1 << 3 >> 1 >>> 1;
         }
         for (;;) { }
         if? (node m = n) { m.visit(m.value, !(total == 0)); } else { return ~total; }
         while (total >= 0 | total [&] 1 != 0 [|] 2) { total = -total; }
         if (total <= 1) { return total; }
         var w = new int[]{1, 2, total};
         var u = new node?[3];
         w[0] = sum(w, node null);
         return sum(new int[0], n) + 1;
     }",
];

#[test]
fn what_is_printed_parses_to_the_same_program() {
    for source in SOURCES {
        let mut interner = Interner::new();
        let program = parse_program(&mut interner, source).expect("the source is a program");
        let printed = program.to_text(&interner);
        let again = parse_program(&mut interner, &printed)
            .unwrap_or_else(|e| panic!("{:?} in {}", e, printed));
        assert_eq!(again, program, "{}", printed);
        // and printing is stable from there on
        assert_eq!(again.to_text(&interner), printed);
    }
}

#[test]
fn the_whole_text_is_read() {
    for source in SOURCES {
        let mut interner = Interner::new();
        assert!(parse_program(&mut interner, source).is_ok());
        // spaces around the program change nothing
        let mut other = Interner::new();
        let padded = format!("\n\t {} \r\n", source);
        assert_eq!(parse_program(&mut other, &padded), parse_program(&mut Interner::new(), source));
    }
}

#[test]
fn a_program_is_written_token_by_token() {
    let mut interner = Interner::new();
    let program = parse_program(&mut interner, "int f(int x) { return x + 1; }").unwrap();
    assert_eq!(program.to_text(&interner), "int f ( int x ) { return x + 1 ; } ");
    let program = parse_program(&mut interner, "struct p { int x; } global g = -3;").unwrap();
    assert_eq!(program.to_text(&interner), "struct p { int x ; } global g = - 3 ; ");
    assert_eq!(
        tokens_to_text(&program_tokens(&program, &interner)),
        program.to_text(&interner)
    );
}

#[test]
fn operands_that_are_operations_are_written_in_parentheses() {
    let mut interner = Interner::new();
    let program =
        parse_program(&mut interner, "int f(int a, int b) { return a + b * 2 - -a; }").unwrap();
    assert_eq!(
        program.to_text(&interner),
        "int f ( int a , int b ) { return ( a + ( b * 2 ) ) - - a ; } "
    );
    let program = parse_program(&mut interner, "void g(() -> void h) { h(); }").unwrap();
    assert_eq!(program.to_text(&interner), "void g ( ( ( ) -> void ) h ) { h ( ) ; } ");
    let program =
        parse_program(&mut interner, "void k(int[] v) { if (v[0] == 1) { } return; }").unwrap();
    assert_eq!(
        program.to_text(&interner),
        "void k ( int [ ] v ) { if ( v [ 0 ] == 1 ) { } else { } return ; } "
    );
}

#[test]
fn tokens_are_written_as_the_lexer_reads_them() {
    assert_eq!(Token::Ifq.to_text(), "if?");
    assert_eq!(Token::Gtgtgt.to_text(), ">>>");
    assert_eq!(Token::IAnd.to_text(), "[&]");
    assert_eq!(Token::Int(0).to_text(), "0");
    assert_eq!(Token::Int(1203).to_text(), "1203");
    assert_eq!(Token::Int(i64::MAX).to_text(), "9223372036854775807");
    assert_eq!(Token::Int(-45).to_text(), "-45");
    assert_eq!(Token::Int(i64::MIN).to_text(), "-9223372036854775808");
    assert_eq!(Token::Ident("x_1".to_string()).to_text(), "x_1");
    assert_eq!(Token::String("a \"b\" \\ c".to_string()).to_text(), "\"a \\\"b\\\" \\\\ c\"");
    assert_eq!(tokens_to_text(&vec![]), "");
    assert_eq!(tokens_to_text(&vec![Token::Return, Token::Semi]), "return ; ");
}
