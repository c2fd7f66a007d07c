use dimcheck::arithmetic::Rational;
use dimcheck::ast::{BinaryOperator, DimensionExpression, Expression, Number, Statement};
use dimcheck::fault::Fault;
use dimcheck::registry::{BaseRepresentation, BaseRepresentationFactor, RegistryError};
use dimcheck::typechecker::{evaluate_const_expr, try_evaluate_const_expr, try_typecheck, typecheck};
use dimcheck::typechecker::{TypeCheckError, TypeChecker};
use dimcheck::typed_ast;
use num_traits::FromPrimitive;

// A reader for the programs in these tests.

fn number(value: f64) -> Number {
    let ratio = num_rational::Ratio::<i128>::from_f64(value);
    Number {
        bits: value.to_bits(),
        exponent: ratio.map(|r| Rational::new(*r.numer(), *r.denom())),
    }
}

#[derive(Clone, Debug, PartialEq)]
enum Token {
    Word(String),
    Value(f64),
    Symbol(char),
    Arrow,
    NewLine,
}

fn tokenize(code: &str) -> Vec<Token> {
    let chars: Vec<char> = code.chars().collect();
    let mut tokens = vec![];
    let mut i = 0;
    while i < chars.len() {
        let c = chars[i];
        let start = i;
        i += 1;
        if c == '\n' {
            tokens.push(Token::NewLine);
        } else if c.is_whitespace() {
        } else if c == '#' {
            while i < chars.len() && chars[i] != '\n' {
                i += 1;
            }
        } else if c == '-' && i < chars.len() && chars[i] == '>' {
            i += 1;
            tokens.push(Token::Arrow);
        } else if c.is_alphabetic() || c == '_' {
            while i < chars.len() && (chars[i].is_alphanumeric() || chars[i] == '_') {
                i += 1;
            }
            tokens.push(Token::Word(chars[start..i].iter().collect()));
        } else if c.is_ascii_digit() {
            while i < chars.len() && (chars[i].is_ascii_digit() || chars[i] == '.') {
                i += 1;
            }
            let text: String = chars[start..i].iter().collect();
            tokens.push(Token::Value(text.parse().unwrap()));
        } else {
            tokens.push(Token::Symbol(c));
        }
    }
    tokens.push(Token::NewLine);
    tokens
}

struct Reader {
    tokens: Vec<Token>,
    next: usize,
}

impl Reader {
    fn peek(&self) -> Option<&Token> {
        self.tokens.get(self.next)
    }

    fn take(&mut self, token: Token) -> bool {
        let found = self.peek() == Some(&token);
        if found {
            self.next += 1;
        }
        found
    }

    fn take_symbol(&mut self, symbol: char) -> bool {
        self.take(Token::Symbol(symbol))
    }

    fn expect_symbol(&mut self, symbol: char) {
        assert!(self.take_symbol(symbol), "expected {}", symbol);
    }

    fn word(&mut self) -> String {
        match self.peek().cloned() {
            Some(Token::Word(w)) => {
                self.next += 1;
                w
            }
            other => panic!("expected a word, found {:?}", other),
        }
    }

    fn value(&mut self) -> f64 {
        match self.peek().cloned() {
            Some(Token::Value(v)) => {
                self.next += 1;
                v
            }
            other => panic!("expected a number, found {:?}", other),
        }
    }

    fn dimension(&mut self) -> DimensionExpression {
        let mut lhs = self.dimension_power();
        loop {
            if self.take_symbol('*') || self.take_symbol('·') {
                let rhs = self.dimension_power();
                lhs = DimensionExpression::Multiply(Box::new(lhs), Box::new(rhs));
            } else if self.take_symbol('/') {
                let rhs = self.dimension_power();
                lhs = DimensionExpression::Divide(Box::new(lhs), Box::new(rhs));
            } else {
                return lhs;
            }
        }
    }

    fn dimension_power(&mut self) -> DimensionExpression {
        let base = if self.take_symbol('(') {
            let inner = self.dimension();
            self.expect_symbol(')');
            inner
        } else if self.take(Token::Value(1.0)) {
            DimensionExpression::Unity
        } else {
            DimensionExpression::Dimension(self.word())
        };
        if !self.take_symbol('^') {
            return base;
        }
        let enclosed = self.take_symbol('(');
        let sign = if self.take_symbol('-') { -1 } else { 1 };
        let numer = sign * self.value() as i128;
        let denom = if enclosed && self.take_symbol('/') { self.value() as i128 } else { 1 };
        if enclosed {
            self.expect_symbol(')');
        }
        DimensionExpression::Power(Box::new(base), Rational::new(numer, denom))
    }

    fn expression(&mut self) -> Expression {
        let mut lhs = self.sum();
        while self.take(Token::Arrow) {
            let rhs = self.sum();
            lhs = binary(BinaryOperator::ConvertTo, lhs, rhs);
        }
        lhs
    }

    fn sum(&mut self) -> Expression {
        let mut lhs = self.product();
        loop {
            if self.take_symbol('+') {
                lhs = binary(BinaryOperator::Add, lhs, self.product());
            } else if self.take_symbol('-') {
                lhs = binary(BinaryOperator::Sub, lhs, self.product());
            } else {
                return lhs;
            }
        }
    }

    fn product(&mut self) -> Expression {
        let mut lhs = self.negation();
        loop {
            if self.take_symbol('*') {
                lhs = binary(BinaryOperator::Mul, lhs, self.negation());
            } else if self.take_symbol('/') {
                lhs = binary(BinaryOperator::Div, lhs, self.negation());
            } else {
                return lhs;
            }
        }
    }

    fn negation(&mut self) -> Expression {
        if self.take_symbol('-') {
            Expression::Negate(Box::new(self.negation()))
        } else {
            self.power()
        }
    }

    fn power(&mut self) -> Expression {
        let base = self.primary();
        if self.take_symbol('^') {
            binary(BinaryOperator::Power, base, self.negation())
        } else {
            base
        }
    }

    fn primary(&mut self) -> Expression {
        if self.take_symbol('(') {
            let inner = self.expression();
            self.expect_symbol(')');
            return inner;
        }
        if let Some(Token::Value(v)) = self.peek().cloned() {
            self.next += 1;
            return Expression::Scalar(number(v));
        }
        let name = self.word();
        if !self.take_symbol('(') {
            return Expression::Identifier(name);
        }
        let mut args = vec![];
        while !self.take_symbol(')') {
            args.push(self.expression());
            self.take_symbol(',');
        }
        Expression::FunctionCall(name, args)
    }

    fn annotation(&mut self) -> Option<DimensionExpression> {
        if self.take_symbol(':') {
            Some(self.dimension())
        } else {
            None
        }
    }

    fn statement(&mut self) -> Statement {
        if self.take(Token::Word("dimension".into())) {
            let name = self.word();
            let mut expressions = vec![];
            while self.take_symbol('=') {
                expressions.push(self.dimension());
            }
            Statement::DeclareDimension(name, expressions)
        } else if self.take(Token::Word("unit".into())) {
            let name = self.word();
            let annotation = self.annotation();
            if self.take_symbol('=') {
                Statement::DeclareDerivedUnit(name, self.expression(), annotation)
            } else {
                Statement::DeclareBaseUnit(name, annotation.unwrap())
            }
        } else if self.take(Token::Word("let".into())) {
            let name = self.word();
            let annotation = self.annotation();
            self.expect_symbol('=');
            Statement::DeclareVariable(name, self.expression(), annotation)
        } else if self.take(Token::Word("fn".into())) {
            let name = self.word();
            let mut type_parameters = vec![];
            if self.take_symbol('<') {
                while !self.take_symbol('>') {
                    type_parameters.push(self.word());
                    self.take_symbol(',');
                }
            }
            self.expect_symbol('(');
            let mut parameters = vec![];
            while !self.take_symbol(')') {
                let parameter = self.word();
                parameters.push((parameter, self.annotation()));
                self.take_symbol(',');
            }
            let return_type = if self.take(Token::Arrow) { Some(self.dimension()) } else { None };
            self.expect_symbol('=');
            Statement::DeclareFunction(
                name,
                type_parameters,
                parameters,
                self.expression(),
                return_type,
            )
        } else {
            Statement::Expression(self.expression())
        }
    }
}

fn binary(op: BinaryOperator, lhs: Expression, rhs: Expression) -> Expression {
    Expression::BinaryOperator(op, Box::new(lhs), Box::new(rhs))
}

fn parse(code: &str) -> Vec<Statement> {
    let mut reader = Reader { tokens: tokenize(code), next: 0 };
    let mut statements = vec![];
    while reader.peek().is_some() {
        if reader.take(Token::NewLine) {
            continue;
        }
        statements.push(reader.statement());
        assert!(reader.take(Token::NewLine), "expected the end of a line");
    }
    statements
}

const TEST_PRELUDE: &'static str = "
dimension A
dimension B
dimension C = A * B
unit a: A
unit b: B
unit c: C = a * b";

fn run_typecheck(input: &str) -> Result<typed_ast::Statement, TypeCheckError> {
    let code = &format!("{prelude}\n{input}", prelude = TEST_PRELUDE, input = input);
    let statements = parse(code);

    let mut typechecker = TypeChecker::default();
    typechecker
        .check_statements(statements)
        .map(|mut statements_checked| statements_checked.pop().unwrap())
}

fn assert_successful_typecheck(input: &str) {
    assert!(run_typecheck(input).is_ok());
}

fn get_typecheck_error(input: &str) -> TypeCheckError {
    if let Err(err) = run_typecheck(input) {
        err
    } else {
        panic!("Input was expected to yield a type check error");
    }
}

fn base(name: &str) -> BaseRepresentation {
    BaseRepresentation::from_factor(BaseRepresentationFactor(
        name.into(),
        Rational::from_integer(1),
    ))
}

fn prelude_checker() -> TypeChecker {
    let mut typechecker = TypeChecker::default();
    typechecker.check_statements(parse(TEST_PRELUDE)).unwrap();
    typechecker
}

fn type_of(input: &str) -> BaseRepresentation {
    match run_typecheck(input) {
        Ok(typed_ast::Statement::Expression(e)) => e.get_type(),
        other => panic!("expected an expression, found {:?}", other),
    }
}

fn is_undefined(input: &str) -> bool {
    let code = format!("{}\n{}", TEST_PRELUDE, input);
    try_typecheck(&parse(&code)) == Err(Fault::Undefined)
}

#[test]
fn basic() {
    let type_a = BaseRepresentation::from_factor(BaseRepresentationFactor(
        "A".into(),
        Rational::from_integer(1),
    ));
    let type_b = BaseRepresentation::from_factor(BaseRepresentationFactor(
        "B".into(),
        Rational::from_integer(1),
    ));
    let type_c = type_a.clone().multiply(type_b.clone());

    assert_successful_typecheck(
        "let x: A = a\n\
                                 let y: B = b",
    );
    assert_successful_typecheck("let x: C = a * b");
    assert_successful_typecheck("let x: C = 2 * a * b^2 / b");
    assert_successful_typecheck("let x: A^3 = a^20 * a^(-17)");

    assert_successful_typecheck("a * b");
    assert_successful_typecheck("a / b");

    assert_successful_typecheck("fn f(x: A) -> A = x");
    assert_successful_typecheck("fn f(x: A) -> A·B = 2 * x * b");
    assert_successful_typecheck("fn f(x: A, y: B) -> C = x * y");

    assert!(matches!(
        get_typecheck_error("a + b"),
        TypeCheckError::IncompatibleDimensions(_, _, t1, _, t2) if t1 == type_a && t2 == type_b
    ));

    assert!(matches!(
        get_typecheck_error("fn f(x: A, y: B) -> C = x / y"),
        TypeCheckError::IncompatibleDimensions(_, _, t1, _, t2) if t1 == type_c && t2 == type_a.clone().divide(type_b.clone())
    ));

    assert!(matches!(
        get_typecheck_error("fn f(x: A) -> A = a\n\
                             f(b)"),
        TypeCheckError::IncompatibleDimensions(_, _, t1, _, t2) if t1 == type_a && t2 == type_b
    ));
}

#[test]
fn detects_wrong_alternative_expression() {
    assert!(matches!(
        get_typecheck_error(
            "# wrong alternative expression: C / B^2
             dimension D = A / B = C / B^3"
        ),
        TypeCheckError::IncompatibleAlternativeDimensionExpression(t) if t == "D",
    ));
}

#[test]
fn accepts_right_alternative_expressions() {
    assert_successful_typecheck("dimension D = A / B = C / B^2 = A^2 * B / (A * B^2)");
    assert_successful_typecheck("dimension D = A = D");
}

#[test]
fn exponents_are_evaluated() {
    let a2 = base("A").power(Rational::from_integer(2));
    assert_eq!(type_of("(2 * a)^(2*3 - 4)"), a2);
    assert_eq!(type_of("a^(1/2 + 3/2)"), a2);
    assert_eq!(type_of("a^-(-2)"), a2);
    assert_eq!(type_of("a^0"), BaseRepresentation::unity());
    assert_eq!(type_of("a^0.5"), base("A").power(Rational::new(1, 2)));
    assert_eq!(type_of("(a^(1/3))^6"), a2);
    assert_eq!(
        type_of("(a*b)^(1/2)"),
        base("A").power(Rational::new(1, 2)).multiply(base("B").power(Rational::new(1, 2)))
    );
}

#[test]
fn power_of_plain_number_takes_any_plain_exponent() {
    assert_eq!(type_of("2^(a/a)"), BaseRepresentation::unity());
    assert_eq!(type_of("let x = 3\n2^x"), BaseRepresentation::unity());
    assert_eq!(type_of("2^(2^3)"), BaseRepresentation::unity());
    assert_eq!(
        get_typecheck_error("a^(b)"),
        TypeCheckError::NonScalarExponent(base("B"))
    );
    assert_eq!(
        get_typecheck_error("2^b"),
        TypeCheckError::NonScalarExponent(base("B"))
    );
}

#[test]
fn unsupported_exponents_are_refused() {
    let unsupported = |what| TypeCheckError::UnsupportedConstExpression(what);
    assert_eq!(get_typecheck_error("a^(2^2)"), unsupported("exponentiation"));
    assert_eq!(get_typecheck_error("a^(2 -> 3)"), unsupported("conversion"));
    assert_eq!(get_typecheck_error("let x = 2\na^x"), unsupported("identifier"));
    assert_eq!(get_typecheck_error("let x = 2\na^(x^2)"), unsupported("identifier"));
    assert_eq!(
        get_typecheck_error("fn two() = 2\na^(1 + two())"),
        unsupported("function call")
    );
}

#[test]
fn undefined_exponents() {
    assert!(is_undefined("a^(1/0)"));
    assert!(is_undefined("a^(2/(3 - 3))"));
    assert!(is_undefined("let x: A = a^99999999999999999999999999999999999999999999"));
    assert!(is_undefined("a^(100000000000000000000000000000 * 100000000000000000000000000000)"));
    assert!(!is_undefined("2^(1/0)"));
}

#[test]
fn undefined_parameters() {
    assert!(is_undefined("fn f(x) = x"));
    assert!(is_undefined("fn f(x: Z) = x"));
    assert!(!is_undefined("fn f(x: A) = x"));
}

#[test]
fn unknown_names() {
    assert_eq!(
        get_typecheck_error("2 * x"),
        TypeCheckError::UnknownIdentifier("x".into())
    );
    assert_eq!(
        get_typecheck_error("g(a)"),
        TypeCheckError::UnknownFunction("g".into())
    );
    assert_eq!(
        get_typecheck_error("let x: Z = a"),
        TypeCheckError::RegistryError(RegistryError::UnknownEntry("Z".into()))
    );
    assert_eq!(
        get_typecheck_error("unit z: A * Z"),
        TypeCheckError::RegistryError(RegistryError::UnknownEntry("Z".into()))
    );
    assert_eq!(
        get_typecheck_error("dimension D = A / Z"),
        TypeCheckError::RegistryError(RegistryError::UnknownEntry("Z".into()))
    );
    assert_eq!(
        get_typecheck_error("fn f(x: A) -> Z = x"),
        TypeCheckError::RegistryError(RegistryError::UnknownEntry("Z".into()))
    );
}

#[test]
fn dimensions_are_declared_once() {
    let taken =
        |name: &str| TypeCheckError::RegistryError(RegistryError::EntryExists(name.into()));
    assert_eq!(get_typecheck_error("dimension A"), taken("A"));
    assert_eq!(get_typecheck_error("dimension C"), taken("C"));
    assert_eq!(get_typecheck_error("dimension A = B"), taken("A"));
    assert_eq!(get_typecheck_error("dimension C = A * B"), taken("C"));
}

#[test]
fn messages_of_incompatible_dimensions() {
    let error = |context: &str, label1, d1, label2, d2| {
        TypeCheckError::IncompatibleDimensions(context.into(), label1, d1, label2, d2)
    };
    assert_eq!(
        get_typecheck_error("a - b"),
        error("binary operator", " left hand side", base("A"), "right hand side", base("B"))
    );
    assert_eq!(
        get_typecheck_error("a -> b"),
        error("binary operator", " left hand side", base("A"), "right hand side", base("B"))
    );
    assert_eq!(
        get_typecheck_error("let x: A = b"),
        error(
            "variable declaration",
            "specified dimension",
            base("A"),
            "   actual dimension",
            base("B")
        )
    );
    assert_eq!(
        get_typecheck_error("unit x: A = b"),
        error(
            "derived unit declaration",
            "specified dimension",
            base("A"),
            "   actual dimension",
            base("B")
        )
    );
    assert_eq!(
        get_typecheck_error("fn f(x: A) -> B = x"),
        error(
            "function return type",
            "specified return type",
            base("B"),
            "   actual return type",
            base("A")
        )
    );
    assert_eq!(
        get_typecheck_error("fn f(x: A, y: B) = x * y\nf(a, a)"),
        error(
            "argument 2 of function call to 'f'",
            "parameter type",
            base("B"),
            " argument type",
            base("A")
        )
    );
}

#[test]
fn arguments_are_numbered_from_one() {
    let mut parameters = String::new();
    let mut arguments = String::new();
    for i in 0..12 {
        parameters.push_str(&format!("x{}: A, ", i));
        arguments.push_str(if i < 11 { "a, " } else { "b" });
    }
    let code = format!("fn f({}) = 1\nf({})", parameters, arguments);
    assert!(matches!(
        get_typecheck_error(&code),
        TypeCheckError::IncompatibleDimensions(context, _, _, _, _)
            if context == "argument 12 of function call to 'f'"
    ));
}

#[test]
fn number_of_arguments() {
    assert_eq!(
        get_typecheck_error("fn f(x: A, y: B) = x * y\nf(a)"),
        TypeCheckError::WrongArity("f".into(), 2, 1)
    );
    // The number of arguments is looked at before the arguments are.
    assert_eq!(
        get_typecheck_error("fn f(x: A) = x\nf(unknown, a)"),
        TypeCheckError::WrongArity("f".into(), 1, 2)
    );
    // Arguments are checked before they are held against the parameters.
    assert_eq!(
        get_typecheck_error("fn f(x: A, y: A) = x\nf(b, unknown)"),
        TypeCheckError::UnknownIdentifier("unknown".into())
    );
}

#[test]
fn operands_are_checked_from_left_to_right() {
    assert_eq!(
        get_typecheck_error("first + second"),
        TypeCheckError::UnknownIdentifier("first".into())
    );
    assert_eq!(
        get_typecheck_error("(a + b) * second"),
        get_typecheck_error("a + b")
    );
}

#[test]
fn functions_can_be_called_after_their_declaration() {
    assert_eq!(type_of("fn f(x: A, y: B) = x / y\nf(2 * a, c / a)"), type_of("a / b"));
    assert_eq!(
        get_typecheck_error("fn f(x: A) = f(x)"),
        TypeCheckError::UnknownFunction("f".into())
    );
    assert_eq!(type_of("fn f() = a\nfn g() = f() * b\ng()"), type_of("c"));
    assert_successful_typecheck("fn f<T>(x: A) -> A = x");
}

#[test]
fn parameters_are_local() {
    assert_eq!(
        get_typecheck_error("fn f(x: A) = x\nx"),
        TypeCheckError::UnknownIdentifier("x".into())
    );
    assert_eq!(type_of("fn f(a: B) = a\na"), base("A"));
    assert_eq!(type_of("fn f(a: B) = a\nf(b)"), base("B"));
    assert_eq!(type_of("fn f(x: A, x: B) = x\nf(a, b)"), base("B"));
}

#[test]
fn identifiers_can_be_redeclared() {
    assert_eq!(type_of("let x = a\nlet x = b\nx"), base("B"));
    assert_eq!(type_of("unit x = a * b\nx"), type_of("c"));
    assert_eq!(type_of("let x: A = a\n-x"), base("A"));
}

#[test]
fn latest_accepted_declaration_counts() {
    let mut typechecker = prelude_checker();
    assert_eq!(
        typechecker.check_statements(parse("x")),
        Err(TypeCheckError::UnknownIdentifier("x".into()))
    );
    let mut expect = |declaration: &str, accepted: bool, probe: &str, dimension: &str| {
        assert_eq!(typechecker.check_statements(parse(declaration)).is_ok(), accepted);
        match typechecker.check_statements(parse(probe)).unwrap().pop() {
            Some(typed_ast::Statement::Expression(e)) => assert_eq!(e.get_type(), base(dimension)),
            other => panic!("expected an expression, found {:?}", other),
        }
    };
    expect("let x = a", true, "x", "A");
    expect("unit x: B", true, "x", "B");
    expect("let x: B = a", false, "x", "B");
    expect("fn x(y: A) = y", true, "x", "B");
    expect("unit x = a", true, "x", "A");
    expect("fn f(y: A) = y", true, "f(a)", "A");
    expect("fn f(y: A) = b", true, "f(a)", "B");
    expect("fn f(y: A) -> A = b", false, "f(a)", "B");
}

#[test]
fn names_of_different_kinds_are_separate() {
    assert_eq!(type_of("let A = b\nA"), base("B"));
    assert_eq!(type_of("fn a(x: B) = x\na"), base("A"));
}

#[test]
fn unit_is_declared_as_variable() {
    for value in ["a * b", "a + b", "unknown", "a^2"] {
        let mut first = prelude_checker();
        let mut second = prelude_checker();
        let as_variable = first.check_statements(parse(&format!("let x: C = {}", value)));
        let as_unit = second.check_statements(parse(&format!("unit x: C = {}", value)));
        assert_eq!(as_variable.is_ok(), as_unit.is_ok());
        assert_eq!(
            first.check_statements(parse("x")),
            second.check_statements(parse("x"))
        );
    }
    for (annotation, value) in [("C", "a + b"), ("C", "unknown"), ("Z", "a"), ("Z", "a + b")] {
        assert_eq!(
            get_typecheck_error(&format!("let x: {} = {}", annotation, value)),
            get_typecheck_error(&format!("unit x: {} = {}", annotation, value))
        );
    }
    let mismatch = |context: &str| {
        TypeCheckError::IncompatibleDimensions(
            context.into(),
            "specified dimension".into(),
            base("B"),
            "   actual dimension".into(),
            base("A"),
        )
    };
    assert_eq!(get_typecheck_error("let x: B = a"), mismatch("variable declaration"));
    assert_eq!(get_typecheck_error("unit x: B = a"), mismatch("derived unit declaration"));
}

#[test]
fn refused_statement_declares_nothing() {
    for refused in ["let a: B = a", "unit b = unknown", "fn f(x: A) -> B = x", "dimension E = Z"] {
        let mut typechecker = prelude_checker();
        assert!(typechecker.check_statements(parse(refused)).is_err());
        for probe in ["a", "b", "f(a)", "let y: E = a"] {
            assert_eq!(
                typechecker.clone().check_statements(parse(probe)),
                prelude_checker().check_statements(parse(probe))
            );
        }
    }
}

#[test]
fn dimension_stays_declared_if_an_alternative_disagrees() {
    let mut typechecker = prelude_checker();
    assert!(typechecker.check_statements(parse("dimension D = A = B")).is_err());
    assert!(typechecker.check_statements(parse("let x: D = a")).is_ok());
    assert!(typechecker.check_statements(parse("let y: C = a * b\nlet z: B = b")).is_ok());
    assert_eq!(
        typechecker.check_statements(parse("dimension D = A")),
        Err(TypeCheckError::RegistryError(RegistryError::EntryExists("D".into())))
    );
}

#[test]
fn statements_before_a_refused_one_count() {
    let mut typechecker = prelude_checker();
    assert_eq!(
        typechecker.check_statements(parse("let x = a\nlet y = unknown\nlet z = b")),
        Err(TypeCheckError::UnknownIdentifier("unknown".into()))
    );
    assert!(typechecker.check_statements(parse("x + a")).is_ok());
    assert_eq!(
        typechecker.check_statements(parse("z")),
        Err(TypeCheckError::UnknownIdentifier("z".into()))
    );
}

#[test]
fn checker_goes_on_after_a_refusal() {
    let program = "let x = a\nlet x = unknown\nlet x: A = b\nfn f(y: A) = y\nfn f(y: A) -> A = b\nlet z = b\nunit x: B";
    let mut typechecker = prelude_checker();
    let verdicts: Vec<bool> = parse(program)
        .into_iter()
        .map(|statement| typechecker.check_statement(statement).is_ok())
        .collect();
    assert_eq!(verdicts, vec![true, false, false, true, false, true, true]);
    assert!(typechecker.check_statements(parse("x + b\nf(a) + a\nz + b")).is_ok());

    let mut stopped = prelude_checker();
    assert!(stopped.check_statements(parse(program)).is_err());
    assert!(stopped.check_statements(parse("x + a")).is_ok());
    assert!(stopped.check_statements(parse("f(a)")).is_err());
    assert!(stopped.check_statements(parse("z")).is_err());
}

#[test]
fn statements_compose() {
    let mut together = prelude_checker();
    let mut apart = prelude_checker();
    let mut all = apart.check_statements(parse("let x = a * b\nfn f(y: A) = y * x")).unwrap();
    all.extend(apart.check_statements(parse("f(a)\nlet z: A^2 * B = f(a)")).unwrap());
    let whole = together
        .check_statements(parse(
            "let x = a * b\nfn f(y: A) = y * x\nf(a)\nlet z: A^2 * B = f(a)",
        ))
        .unwrap();
    assert_eq!(all, whole);
    assert_eq!(whole.len(), 4);
}

#[test]
fn typed_statements() {
    let a_times_2 = typed_ast::Expression::BinaryOperator(
        BinaryOperator::Mul,
        Box::new(typed_ast::Expression::Identifier("a".into(), base("A"))),
        Box::new(typed_ast::Expression::Scalar(number(2.0))),
        base("A"),
    );
    assert_eq!(
        run_typecheck("let x: A = a * 2"),
        Ok(typed_ast::Statement::DeclareVariable("x".into(), a_times_2, base("A")))
    );
    assert_eq!(
        run_typecheck("dimension D = A"),
        Ok(typed_ast::Statement::DeclareDimension("D".into()))
    );
    assert_eq!(
        run_typecheck("unit u: B"),
        Ok(typed_ast::Statement::DeclareBaseUnit("u".into(), base("B")))
    );
    assert_eq!(
        run_typecheck("fn f(x: A, y: B) = -y"),
        Ok(typed_ast::Statement::DeclareFunction(
            "f".into(),
            vec![("x".into(), base("A")), ("y".into(), base("B"))],
            typed_ast::Expression::Negate(
                Box::new(typed_ast::Expression::Identifier("y".into(), base("B"))),
                base("B"),
            ),
            base("B"),
        ))
    );
    assert_eq!(
        run_typecheck("fn f(x: A) = 1\nf(a)"),
        Ok(typed_ast::Statement::Expression(typed_ast::Expression::FunctionCall(
            "f".into(),
            vec![typed_ast::Expression::Identifier("a".into(), base("A"))],
            BaseRepresentation::unity(),
        )))
    );
}

#[test]
fn typecheck_starts_without_declarations() {
    assert_eq!(typecheck(parse("1 + 1")).map(|s| s.len()), Ok(1));
    assert_eq!(
        typecheck(parse("a")),
        Err(TypeCheckError::UnknownIdentifier("a".into()))
    );
    assert_eq!(typecheck(vec![]), Ok(vec![]));
    let code = format!("{}\na * b -> c", TEST_PRELUDE);
    assert_eq!(typecheck(parse(&code)).unwrap().pop(), run_typecheck("a * b -> c").ok());
}

#[test]
fn const_expressions() {
    let value = |input: &str| match run_typecheck(input) {
        Ok(typed_ast::Statement::Expression(e)) => try_evaluate_const_expr(&e),
        other => panic!("expected an expression, found {:?}", other),
    };
    assert_eq!(value("2*3 - 4"), Ok(Rational::from_integer(2)));
    assert_eq!(value("1/3 + 1/6"), Ok(Rational::new(1, 2)));
    assert_eq!(value("-(0.5) * 3"), Ok(Rational::new(-3, 2)));
    assert_eq!(value("1/0"), Err(Fault::Undefined));
    let expression = match run_typecheck("7/2") {
        Ok(typed_ast::Statement::Expression(e)) => e,
        other => panic!("expected an expression, found {:?}", other),
    };
    assert_eq!(evaluate_const_expr(&expression), Ok(Rational::new(7, 2)));
}

#[test]
fn expressions_are_checked_without_declaring() {
    let typechecker = prelude_checker();
    let expression = binary(
        BinaryOperator::Mul,
        Expression::Identifier("a".into()),
        Expression::Identifier("b".into()),
    );
    let checked = typechecker.check_expression(expression).unwrap();
    assert_eq!(checked.get_type(), base("A").multiply(base("B")));
}

#[test]
fn multiplication_commutes() {
    for (x, y) in [("a", "b"), ("a^2", "a / b"), ("2", "c"), ("a^(1/2)", "1 / a^(1/2)")] {
        assert_eq!(
            type_of(&format!("({}) * ({})", x, y)),
            type_of(&format!("({}) * ({})", y, x))
        );
    }
}

#[test]
fn powers_multiply() {
    for (p, q) in [("20", "-17"), ("1/2", "3/2"), ("2", "-2"), ("0", "1.5")] {
        assert_eq!(
            type_of(&format!("(a*b)^({}) * (a*b)^({})", p, q)),
            type_of(&format!("(a*b)^(({}) + ({}))", p, q))
        );
    }
}

#[test]
fn unrelated_statements_change_nothing() {
    for unrelated in ["let x = b", "fn f(a: B) = a", "dimension D = A / B", "unit u: B", "b"] {
        assert_eq!(type_of(&format!("{}\na^2 / c", unrelated)), type_of("a^2 / c"));
    }
    assert_eq!(type_of("fn a(x: B) = x\na^2 / c"), type_of("a^2 / c"));
    assert_eq!(type_of("fn f(x: A) = x\nlet f = b\nf(a)"), base("A"));
    assert_eq!(type_of("fn f(x: A) = x\nlet f = b\nf"), base("B"));
}

#[test]
fn declared_dimensions_are_permanent() {
    let mut typechecker = prelude_checker();
    assert!(typechecker.check_statements(parse("dimension C = A")).is_err());
    assert!(typechecker.check_statements(parse("dimension D = C / A")).is_ok());
    assert!(typechecker.check_statements(parse("dimension E = D = A")).is_err());
    assert!(typechecker.check_statements(parse("let A = b\nfn C(x: B) = x")).is_ok());
    assert!(typechecker.check_statements(parse("let x: C = a * b\nlet y: D = b")).is_ok());
}

#[test]
fn annotation_only_checks() {
    assert_eq!(run_typecheck("let x: C = a * b"), run_typecheck("let x = a * b"));
    assert_eq!(run_typecheck("let x: A * B = c"), run_typecheck("let x: C = c"));
    assert_eq!(run_typecheck("unit x: C = a * b"), run_typecheck("unit x = a * b"));
    assert_eq!(run_typecheck("fn f(x: A) -> C = x * b"), run_typecheck("fn f(x: A) = x * b"));
    assert!(run_typecheck("let x: A = a * b").is_err());
    assert!(run_typecheck("unit x: A = a * b").is_err());
    assert!(run_typecheck("fn f(x: A) -> A = x * b").is_err());
    assert_eq!(run_typecheck("let x: C = a + b"), run_typecheck("let x = a + b"));
    assert_eq!(run_typecheck("unit x: Z = a + b"), run_typecheck("unit x = a + b"));
    assert_eq!(run_typecheck("fn f(x: A) -> Z = x + b"), run_typecheck("fn f(x: A) = x + b"));
}
