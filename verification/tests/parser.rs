use yql_core::expr::{BinaryOperator, Expr, Literal, UnaryOperator};
use yql_core::sql::ast::{GroupBy, Select, Source, SourceFrom};
use yql_core::sql::parser;
use yql_core::sql::parser::{
    boolean, expr, expr_call, float, ident, integer, literal, name, parse, parse_expr, select,
    source, sp, string, window, ParseError, Production,
};
use yql_core::window::{Period, Window};

fn col(name: &str) -> Expr {
    Expr::Column {
        qualifier: None,
        name: name.to_string(),
    }
}

fn number(value: i64) -> Expr {
    Expr::Literal(Literal::Int(value))
}

fn binary(op: BinaryOperator, lhs: Expr, rhs: Expr) -> Expr {
    Expr::Binary {
        op,
        lhs: Box::new(lhs),
        rhs: Box::new(rhs),
    }
}

fn float_value(input: &str) -> Result<(&str, f64), ParseError> {
    float(input).map(|(rest, text)| (rest, text.parse::<f64>().unwrap()))
}

#[test]
fn test_sp() {
    assert_eq!(sp(" \t\r\n"), Ok(("", ())));
}

#[test]
fn test_ident() {
    assert_eq!(ident("a"), Ok(("", "a")));
    assert_eq!(ident("abc"), Ok(("", "abc")));
    assert_eq!(ident("ABC"), Ok(("", "ABC")));
    assert_eq!(ident("a1"), Ok(("", "a1")));
    assert_eq!(ident("A1"), Ok(("", "A1")));
    assert_eq!(ident("a_b"), Ok(("", "a_b")));
    assert_eq!(ident("_ab"), Ok(("", "_ab")));
}

#[test]
fn test_bool() {
    assert_eq!(boolean("true"), Ok(("", true)));
    assert_eq!(boolean("false"), Ok(("", false)));
    assert_eq!(boolean("True"), Ok(("", true)));
    assert_eq!(boolean("False"), Ok(("", false)));
    assert_eq!(boolean("TRUE"), Ok(("", true)));
    assert_eq!(boolean("FALSE"), Ok(("", false)));
}

#[test]
fn test_integer() {
    assert_eq!(integer("123"), Ok(("", 123)));
    assert_eq!(integer("0123"), Ok(("", 123)));
    assert_eq!(integer("230"), Ok(("", 230)));
}

#[test]
fn test_float() {
    assert_eq!(float_value("123.12"), Ok(("", 123.12)));
    assert_eq!(float_value("0123.45"), Ok(("", 123.45)));
    assert_eq!(float_value("12.0e+2"), Ok(("", 1200.0)));
    assert_eq!(float_value("12.0e-2"), Ok(("", 0.12)));
}

#[test]
fn test_string() {
    assert_eq!(string(r#""abc""#), Ok(("", "abc".to_string())));
    assert_eq!(string(r#"'abc'"#), Ok(("", "abc".to_string())));
    assert_eq!(string(r#"'\nab\rc'"#), Ok(("", "\nab\rc".to_string())));
}

#[test]
fn test_literal() {
    assert_eq!(literal(r#"true"#), Ok(("", Literal::Boolean(true))));
    assert_eq!(literal(r#"0"#), Ok(("", Literal::Int(0))));
    assert_eq!(literal(r#"127"#), Ok(("", Literal::Int(127))));
    assert_eq!(literal(r#"-128"#), Ok(("", Literal::Int(-128))));
    assert_eq!(
        literal(r#""abc""#),
        Ok(("", Literal::String("abc".to_string())))
    );
}

#[test]
fn test_name() {
    assert_eq!(name(r#""abc""#), Ok(("", "abc".to_string())));
    assert_eq!(name(r#"abc"#), Ok(("", "abc".to_string())));
}

#[test]
fn test_column() {
    assert_eq!(
        parser::column(r#""abc".a"#),
        Ok((
            "",
            Expr::Column {
                qualifier: Some("abc".to_string()),
                name: "a".to_string()
            }
        ))
    );

    assert_eq!(
        parser::column(r#"abc.'123'"#),
        Ok((
            "",
            Expr::Column {
                qualifier: Some("abc".to_string()),
                name: "123".to_string()
            }
        ))
    );

    assert_eq!(
        parser::column(r#"abc"#),
        Ok((
            "",
            Expr::Column {
                qualifier: None,
                name: "abc".to_string()
            }
        ))
    );

    assert_eq!(
        parser::column(r#"'123'"#),
        Ok((
            "",
            Expr::Column {
                qualifier: None,
                name: "123".to_string()
            }
        ))
    );
}

#[test]
fn test_expr() {
    assert_eq!(
        expr(r#"2000+4/2"#),
        Ok((
            "",
            Expr::Literal(Literal::Int(2000))
                + Expr::Literal(Literal::Int(4)) / Expr::Literal(Literal::Int(2))
        ))
    );

    assert_eq!(
        expr(r#"(2000+4)/2"#),
        Ok((
            "",
            (Expr::Literal(Literal::Int(2000)) + Expr::Literal(Literal::Int(4)))
                / Expr::Literal(Literal::Int(2))
        ))
    );
}

#[test]
fn test_expr_call() {
    assert_eq!(
        expr_call(r#"sum(a)"#),
        Ok((
            "",
            Expr::Call {
                namespace: None,
                name: "sum".to_string(),
                args: vec![Expr::Column {
                    qualifier: None,
                    name: "a".to_string()
                }]
            }
        ))
    );

    assert_eq!(
        expr_call(r#"c(a, 1, b, 2)"#),
        Ok((
            "",
            Expr::Call {
                namespace: None,
                name: "c".to_string(),
                args: vec![
                    Expr::Column {
                        qualifier: None,
                        name: "a".to_string()
                    },
                    Expr::Literal(Literal::Int(1)),
                    Expr::Column {
                        qualifier: None,
                        name: "b".to_string()
                    },
                    Expr::Literal(Literal::Int(2)),
                ]
            }
        ))
    );

    assert_eq!(
        expr_call(r#"abc.sum(a)"#),
        Ok((
            "",
            Expr::Call {
                namespace: Some("abc".to_string()),
                name: "sum".to_string(),
                args: vec![Expr::Column {
                    qualifier: None,
                    name: "a".to_string()
                }]
            }
        ))
    );
}

#[test]
fn test_source() {
    assert_eq!(
        source(r#"abc"#),
        Ok((
            "",
            Source {
                from: SourceFrom::Named("abc".to_string()),
                alias: None
            }
        ))
    );
}

#[test]
fn test_window() {
    assert_eq!(
        window(r#"window fixed(5m)"#),
        Ok((
            "",
            Window::Fixed {
                length: 1000 * 5 * 60
            },
        ))
    );

    assert_eq!(
        window(r#"window sliding(5m, 1m)"#),
        Ok((
            "",
            Window::Sliding {
                length: 1000 * 5 * 60,
                interval: 1000 * 60,
            },
        ))
    );

    assert_eq!(
        window(r#"window day"#),
        Ok((
            "",
            Window::Period {
                period: Period::Day
            },
        ))
    );

    assert_eq!(
        window(r#"window week"#),
        Ok((
            "",
            Window::Period {
                period: Period::Week
            },
        ))
    );

    assert_eq!(
        window(r#"window month"#),
        Ok((
            "",
            Window::Period {
                period: Period::Month
            },
        ))
    );

    assert_eq!(
        window(r#"window year"#),
        Ok((
            "",
            Window::Period {
                period: Period::Year
            },
        ))
    );
}

#[test]
fn test_select() {
    assert_eq!(
        select(r#"select a, b, a+b, sum(a) from t"#),
        Ok((
            "",
            Select {
                projection: vec![
                    Expr::Column {
                        qualifier: None,
                        name: "a".to_string()
                    },
                    Expr::Column {
                        qualifier: None,
                        name: "b".to_string()
                    },
                    Expr::Column {
                        qualifier: None,
                        name: "a".to_string()
                    } + Expr::Column {
                        qualifier: None,
                        name: "b".to_string()
                    },
                    Expr::Call {
                        namespace: None,
                        name: "sum".to_string(),
                        args: vec![Expr::Column {
                            qualifier: None,
                            name: "a".to_string()
                        }]
                    }
                ],
                source: Source {
                    from: SourceFrom::Named("t".to_string()),
                    alias: None
                },
                where_clause: None,
                having_clause: None,
                group_clause: None,
                window: None,
            },
        )),
    );

    assert_eq!(
        select(r#"select a, b from t where a>10"#),
        Ok((
            "",
            Select {
                projection: vec![
                    Expr::Column {
                        qualifier: None,
                        name: "a".to_string()
                    },
                    Expr::Column {
                        qualifier: None,
                        name: "b".to_string()
                    },
                ],
                source: Source {
                    from: SourceFrom::Named("t".to_string()),
                    alias: None
                },
                where_clause: Some(
                    Expr::Column {
                        qualifier: None,
                        name: "a".to_string()
                    }
                    .gt(Expr::Literal(Literal::Int(10)))
                ),
                having_clause: None,
                group_clause: None,
                window: None
            },
        )),
    );

    assert_eq!(
        select(r#"select a, b from t where a>10 group by b window fixed(5m)"#),
        Ok((
            "",
            Select {
                projection: vec![
                    Expr::Column {
                        qualifier: None,
                        name: "a".to_string()
                    },
                    Expr::Column {
                        qualifier: None,
                        name: "b".to_string()
                    },
                ],
                source: Source {
                    from: SourceFrom::Named("t".to_string()),
                    alias: None
                },
                where_clause: Some(
                    Expr::Column {
                        qualifier: None,
                        name: "a".to_string()
                    }
                    .gt(Expr::Literal(Literal::Int(10)))
                ),
                having_clause: None,
                group_clause: Some(GroupBy {
                    exprs: vec![Expr::Column {
                        qualifier: None,
                        name: "b".to_string()
                    }]
                }),
                window: Some(Window::Fixed {
                    length: 5 * 1000 * 60
                })
            },
        )),
    );
}

#[test]
fn sp_stops_at_first_other_character() {
    assert_eq!(sp("  \n x y"), Ok(("x y", ())));
    assert_eq!(sp("x"), Ok(("x", ())));
    assert_eq!(sp(""), Ok(("", ())));
}

#[test]
fn ident_may_start_with_at_sign_and_stops_at_other_characters() {
    assert_eq!(ident("@var1+2"), Ok(("+2", "@var1")));
    assert_eq!(ident("_"), Ok(("", "_")));
    assert_eq!(
        ident("1a"),
        Err(ParseError {
            offset: 0,
            context: Production::Ident
        })
    );
    assert_eq!(
        ident(""),
        Err(ParseError {
            offset: 0,
            context: Production::Ident
        })
    );
}

#[test]
fn boolean_reads_a_prefix_and_refuses_other_words() {
    assert_eq!(boolean("tRuE!"), Ok(("!", true)));
    assert_eq!(
        boolean("tru"),
        Err(ParseError {
            offset: 0,
            context: Production::Boolean
        })
    );
}

#[test]
fn integer_bounds_and_overflow() {
    assert_eq!(
        integer("9223372036854775807"),
        Ok(("", 9223372036854775807))
    );
    assert_eq!(
        integer("-9223372036854775808"),
        Ok(("", -9223372036854775808))
    );
    assert_eq!(
        integer("9223372036854775808"),
        Err(ParseError {
            offset: 0,
            context: Production::Integer
        })
    );
    assert_eq!(
        integer("-"),
        Err(ParseError {
            offset: 1,
            context: Production::Integer
        })
    );
    assert_eq!(integer("12ab"), Ok(("ab", 12)));
}

#[test]
fn float_literal_forms() {
    assert_eq!(float("1."), Ok(("", "1.".to_string())));
    assert_eq!(float(".5x"), Ok(("x", ".5".to_string())));
    assert_eq!(float("-0.25E3"), Ok(("", "-0.25E3".to_string())));
    assert_eq!(
        float("12"),
        Err(ParseError {
            offset: 0,
            context: Production::Float
        })
    );
}

#[test]
fn float_exponent_without_digits_fails_for_good() {
    assert_eq!(
        float("1.5e"),
        Err(ParseError {
            offset: 4,
            context: Production::Float
        })
    );
    assert_eq!(
        float("1.5e+x"),
        Err(ParseError {
            offset: 5,
            context: Production::Float
        })
    );
    // No alternative is tried behind the failed exponent: not even the integer.
    assert_eq!(
        literal("1.5e"),
        Err(ParseError {
            offset: 4,
            context: Production::Literal
        })
    );
    assert_eq!(
        expr("1.5e"),
        Err(ParseError {
            offset: 4,
            context: Production::Expr
        })
    );
}

#[test]
fn string_escapes_and_doubled_quotes() {
    assert_eq!(string(r#"'it''s'"#), Ok(("", "it's".to_string())));
    assert_eq!(string(r#""say ""hi""""#), Ok(("", "say \"hi\"".to_string())));
    assert_eq!(string(r#"'a\\b'"#), Ok(("", "a\\b".to_string())));
    assert_eq!(string(r#"'\b\t\0\Z'"#), Ok(("", "\x7f\t\0\x1a".to_string())));
    assert_eq!(string(r#"'\q\''"#), Ok(("", "q'".to_string())));
    assert_eq!(string(r#"''"#), Ok(("", "".to_string())));
    assert_eq!(string("'héllo' x"), Ok((" x", "héllo".to_string())));
}

#[test]
fn string_without_closing_quote_is_refused() {
    assert_eq!(
        string("'abc"),
        Err(ParseError {
            offset: 4,
            context: Production::String
        })
    );
    assert_eq!(
        string("abc"),
        Err(ParseError {
            offset: 0,
            context: Production::String
        })
    );
}

#[test]
fn literal_prefers_float_over_integer() {
    assert_eq!(
        literal("1.5"),
        Ok(("", Literal::Float("1.5".to_string())))
    );
    assert_eq!(literal("15"), Ok(("", Literal::Int(15))));
    assert_eq!(literal("false1"), Ok(("1", Literal::Boolean(false))));
}

#[test]
fn column_wildcard_and_unread_rest() {
    assert_eq!(parser::column("*"), Ok(("", Expr::Wildcard { qualifier: None })));
    // A name wins over a qualified wildcard: the point and the star are left.
    assert_eq!(parser::column("t.*"), Ok((".*", col("t"))));
}

#[test]
fn operators_bind_by_tier_and_from_the_left() {
    assert_eq!(
        expr("1 - 2 - 3"),
        Ok((
            "",
            binary(
                BinaryOperator::Minus,
                binary(BinaryOperator::Minus, number(1), number(2)),
                number(3)
            )
        ))
    );
    assert_eq!(
        expr("a or b and c = 1 + 2 * 3"),
        Ok((
            "",
            binary(
                BinaryOperator::Or,
                col("a"),
                binary(
                    BinaryOperator::And,
                    col("b"),
                    binary(
                        BinaryOperator::Eq,
                        col("c"),
                        binary(
                            BinaryOperator::Plus,
                            number(1),
                            binary(BinaryOperator::Multiply, number(2), number(3))
                        )
                    )
                )
            )
        ))
    );
}

#[test]
fn comparison_operators_are_read_whole() {
    assert_eq!(
        expr("a <= 1"),
        Ok(("", binary(BinaryOperator::LtEq, col("a"), number(1))))
    );
    assert_eq!(
        expr("a >= 1"),
        Ok(("", binary(BinaryOperator::GtEq, col("a"), number(1))))
    );
    assert_eq!(
        expr("a <> 1"),
        Ok(("", binary(BinaryOperator::NotEq, col("a"), number(1))))
    );
    assert_eq!(
        expr("a != 1"),
        Ok(("", binary(BinaryOperator::NotEq, col("a"), number(1))))
    );
    assert_eq!(
        expr("a < 1"),
        Ok(("", binary(BinaryOperator::Lt, col("a"), number(1))))
    );
    assert_eq!(
        expr("a AND b"),
        Ok(("", binary(BinaryOperator::And, col("a"), col("b"))))
    );
}

#[test]
fn unary_operators_bind_tighter_than_binary_ones() {
    let not = |e: Expr| Expr::Unary {
        op: UnaryOperator::Not,
        expr: Box::new(e),
    };
    let neg = |e: Expr| Expr::Unary {
        op: UnaryOperator::Neg,
        expr: Box::new(e),
    };
    assert_eq!(
        expr("not a and b"),
        Ok(("", binary(BinaryOperator::And, not(col("a")), col("b"))))
    );
    assert_eq!(
        expr("-a+b"),
        Ok(("", binary(BinaryOperator::Plus, neg(col("a")), col("b"))))
    );
    assert_eq!(
        expr("- a * b"),
        Ok(("", binary(BinaryOperator::Multiply, neg(col("a")), col("b"))))
    );
    assert_eq!(
        expr("a - -b"),
        Ok(("", binary(BinaryOperator::Minus, col("a"), neg(col("b")))))
    );
    assert_eq!(expr("-5"), Ok(("", neg(number(5)))));
    assert_eq!(expr("not not a"), Ok(("", not(not(col("a"))))));
}

#[test]
fn parentheses_widen_the_operand_of_a_unary_operator() {
    assert_eq!(
        expr("-(a+b)"),
        Ok((
            "",
            Expr::Unary {
                op: UnaryOperator::Neg,
                expr: Box::new(binary(BinaryOperator::Plus, col("a"), col("b")))
            }
        ))
    );
    assert_eq!(
        expr("not (a and b)"),
        Ok((
            "",
            Expr::Unary {
                op: UnaryOperator::Not,
                expr: Box::new(binary(BinaryOperator::And, col("a"), col("b")))
            }
        ))
    );
}

#[test]
fn white_space_between_tokens_changes_nothing() {
    let dense = expr("(a+b)*sum(c,1)>=2").unwrap().1;
    let sparse = expr("  ( a\t+\nb )  *  sum ( c , 1 )  >=  2  ").unwrap();
    assert_eq!(sparse.0, "");
    assert_eq!(sparse.1, dense);

    let dense = select("select a,sum(b) from t where a>1 group by a window fixed(5s)")
        .unwrap()
        .1;
    let sparse = select(
        "select   a ,\n sum( b )\tfrom   t   where  a > 1   group   by  a   window  fixed ( 5s )  ",
    )
    .unwrap();
    assert_eq!(sparse.0, "");
    assert_eq!(sparse.1, dense);
}

#[test]
fn parse_expr_joins_from_the_left() {
    assert_eq!(parse_expr(col("a"), vec![]), col("a"));
    assert_eq!(
        parse_expr(
            col("a"),
            vec![
                (BinaryOperator::Plus, col("b")),
                (BinaryOperator::Minus, col("c"))
            ]
        ),
        binary(
            BinaryOperator::Minus,
            binary(BinaryOperator::Plus, col("a"), col("b")),
            col("c")
        )
    );
}

#[test]
fn call_without_arguments_and_unclosed_call() {
    assert_eq!(
        expr_call("now()"),
        Ok((
            "",
            Expr::Call {
                namespace: None,
                name: "now".to_string(),
                args: vec![]
            }
        ))
    );
    assert_eq!(
        expr_call("sum(a"),
        Err(ParseError {
            offset: 5,
            context: Production::ExprCall
        })
    );
}

#[test]
fn durations_in_all_units() {
    assert_eq!(
        window("window fixed(250ms)"),
        Ok(("", Window::Fixed { length: 250 }))
    );
    assert_eq!(
        window("window fixed(3s)"),
        Ok(("", Window::Fixed { length: 3000 }))
    );
    assert_eq!(
        window("WINDOW SLIDING ( 2M , 30S )"),
        Ok((
            "",
            Window::Sliding {
                length: 120000,
                interval: 30000
            }
        ))
    );
    // A duration that does not fit in 64 bits is none.
    assert!(window("window fixed(9223372036854775807s)").is_err());
    assert!(window("window fixed(5h)").is_err());
}

#[test]
fn select_with_alias_subquery_and_all_clauses() {
    let (rest, query) = select(
        "select k as key, sum(v) from (select k, v from t) as s where v > 0 group by k having sum(v) > 1 window day",
    )
    .unwrap();
    assert_eq!(rest, "");
    assert_eq!(
        query.projection,
        vec![
            col("k").alias("key".to_string()),
            Expr::Call {
                namespace: None,
                name: "sum".to_string(),
                args: vec![col("v")]
            }
        ]
    );
    assert_eq!(
        query.source,
        Source {
            from: SourceFrom::SubQuery(Box::new(Select {
                projection: vec![col("k"), col("v")],
                source: Source {
                    from: SourceFrom::Named("t".to_string()),
                    alias: None
                },
                where_clause: None,
                having_clause: None,
                group_clause: None,
                window: None,
            })),
            alias: Some("s".to_string()),
        }
    );
    assert_eq!(
        query.where_clause,
        Some(binary(BinaryOperator::Gt, col("v"), number(0)))
    );
    assert_eq!(
        query.group_clause,
        Some(GroupBy {
            exprs: vec![col("k")]
        })
    );
    assert_eq!(
        query.having_clause,
        Some(binary(
            BinaryOperator::Gt,
            Expr::Call {
                namespace: None,
                name: "sum".to_string(),
                args: vec![col("v")]
            },
            number(1)
        ))
    );
    assert_eq!(
        query.window,
        Some(Window::Period {
            period: Period::Day
        })
    );
}

#[test]
fn select_errors_name_the_furthest_place() {
    assert_eq!(
        select("selec a from t"),
        Err(ParseError {
            offset: 0,
            context: Production::Select
        })
    );
    assert_eq!(
        select("select a t"),
        Err(ParseError {
            offset: 9,
            context: Production::Select
        })
    );
    assert_eq!(
        select("select a from"),
        Err(ParseError {
            offset: 13,
            context: Production::Select
        })
    );
}

#[test]
fn parse_wants_the_whole_text() {
    assert!(parse("  select a from t  ").is_ok());
    assert_eq!(
        parse("select a from t ; drop"),
        Err(ParseError {
            offset: 16,
            context: Production::Select
        })
    );
    assert_eq!(
        parse("select a from t where"),
        Err(ParseError {
            offset: 16,
            context: Production::Select
        })
    );
}

#[test]
fn production_labels() {
    assert_eq!(Production::Select.label(), "select");
    assert_eq!(Production::Input.label(), "input");
    assert_eq!(Production::ExprCall.label(), "expr_call");
}
