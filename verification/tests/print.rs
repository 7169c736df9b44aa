use fasteval::error::Error;
use fasteval::parser::{ExpressionI, ExpressionOrString, PrintFunc};
use fasteval::print::process_str;

#[test]
fn escapes_become_newline_and_tab() {
    assert_eq!(process_str("a\\nb\\tc"), "a\nb\tc");
    assert_eq!(process_str("plain"), "plain");
    assert_eq!(process_str(""), "");
    assert_eq!(process_str("\\"), "\\");
    assert_eq!(process_str("\\\\n"), "\\\n");
    assert_eq!(process_str("\\x"), "\\x");
}

#[test]
fn render_joins_arguments_with_spaces() {
    let pf = PrintFunc(vec![
        ExpressionOrString::EStr("x =\\t".to_string()),
        ExpressionOrString::EExpr(ExpressionI(0)),
        ExpressionOrString::EStr("done".to_string()),
    ]);
    let texts = vec![String::new(), "1.5".to_string(), String::new()];
    assert_eq!(pf.render(&texts), "x =\t 1.5 done");
}

#[test]
fn render_of_no_argument_is_empty() {
    let pf = PrintFunc(vec![]);
    assert_eq!(pf.render(&vec![]), "");
}

#[test]
fn printf_style_call_is_refused() {
    let pf = PrintFunc(vec![
        ExpressionOrString::EStr("%d".to_string()),
        ExpressionOrString::EExpr(ExpressionI(0)),
    ]);
    assert_eq!(
        pf.check_mode(),
        Err(Error::WrongArgs("printf formatting is not yet implemented".to_string()))
    );
}

#[test]
fn percent_after_the_first_argument_is_plain_text() {
    let pf = PrintFunc(vec![
        ExpressionOrString::EExpr(ExpressionI(0)),
        ExpressionOrString::EStr("%".to_string()),
    ]);
    assert_eq!(pf.check_mode(), Ok(()));
    assert_eq!(PrintFunc(vec![]).check_mode(), Ok(()));
}

#[test]
fn value_comes_from_the_last_expression() {
    let pf = PrintFunc(vec![
        ExpressionOrString::EExpr(ExpressionI(0)),
        ExpressionOrString::EExpr(ExpressionI(3)),
        ExpressionOrString::EStr("end".to_string()),
    ]);
    assert_eq!(pf.value_source(), Some(1));
    let none = PrintFunc(vec![ExpressionOrString::EStr("only".to_string())]);
    assert_eq!(none.value_source(), None);
}
