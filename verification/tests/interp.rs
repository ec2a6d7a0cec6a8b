//! End-to-end tests of the interpreter: reader, printer, evaluator,
//! environment and the native callables, driven through the same
//! read-evaluate-print step a driver uses.

use mal::env::Interp;
use mal::floats::FloatOps;
use mal::repl::{print, read, rep};

/// The host's floating-point operations, over IEEE 754 bit patterns.
struct HostFloat;

impl FloatOps for HostFloat {
    fn add(&self, a: u64, b: u64) -> u64 {
        (f64::from_bits(a) + f64::from_bits(b)).to_bits()
    }

    fn sub(&self, a: u64, b: u64) -> u64 {
        (f64::from_bits(a) - f64::from_bits(b)).to_bits()
    }

    fn mul(&self, a: u64, b: u64) -> u64 {
        (f64::from_bits(a) * f64::from_bits(b)).to_bits()
    }

    fn div(&self, a: u64, b: u64) -> u64 {
        (f64::from_bits(a) / f64::from_bits(b)).to_bits()
    }

    fn sqrt(&self, a: u64) -> u64 {
        f64::from_bits(a).sqrt().to_bits()
    }

    fn from_int(&self, n: i64) -> u64 {
        (n as f64).to_bits()
    }

    fn parse(&self, tok: &str) -> u64 {
        tok.parse::<f64>().map(|x| x.to_bits()).unwrap_or(f64::NAN.to_bits())
    }

    fn render(&self, bits: u64) -> String {
        format!("{}", f64::from_bits(bits))
    }
}

const FUEL: u64 = 100_000;

fn run(src: &str) -> String {
    let ops = HostFloat;
    let mut st = Interp::default();
    rep(&ops, &mut st, 0, src, FUEL)
}

fn run_all(srcs: &[&str]) -> String {
    let ops = HostFloat;
    let mut st = Interp::default();
    let mut last = String::new();
    for src in srcs {
        last = rep(&ops, &mut st, 0, src, FUEL);
    }
    last
}

fn round_trip(src: &str) -> String {
    let ops = HostFloat;
    let v = match read(&ops, src) {
        Ok(Some(v)) => v,
        _ => panic!("reading {} failed", src),
    };
    print(&ops, &v)
}

#[test]
fn add_integers() {
    assert_eq!(run("(+ 1 2 3)"), "6");
}

#[test]
fn add_mixed_promotes_to_float() {
    assert_eq!(run("(+ 1 2.5)"), "3.5");
}

#[test]
fn divide_by_zero_is_an_error() {
    let out = run("(/ 1 0)");
    assert!(out.contains("ERROR: division by zero"), "got: {}", out);
    let out = run("(div 1 0)");
    assert!(out.contains("ERROR: division by zero"), "got: {}", out);
}

#[test]
fn division_stays_integer_when_exact() {
    assert_eq!(run("(/ 6 3)"), "2");
}

#[test]
fn division_promotes_on_remainder() {
    assert_eq!(run("(/ 7 2)"), "3.5");
}

#[test]
fn let_bindings_are_sequential() {
    assert_eq!(run("(let [x 1 y (+ x 1)] (+ x y))"), "3");
}

#[test]
fn let_accepts_pair_bindings() {
    assert_eq!(run("(let ((x 1) (y 2)) (+ x y))"), "3");
}

#[test]
fn let_odd_bindings_is_an_error() {
    let out = run("(let [x] x)");
    assert!(out.contains("ERROR:"), "got: {}", out);
}

#[test]
fn only_nil_and_false_are_falsy() {
    assert_eq!(run("(if nil 1 2)"), "2");
    assert_eq!(run("(if false 1 2)"), "2");
    assert_eq!(run("(if 0 1 2)"), "1");
    assert_eq!(run("(if (list) 1 2)"), "1");
    assert_eq!(run("(if \"\" 1 2)"), "1");
}

#[test]
fn if_without_else_yields_nil() {
    assert_eq!(run("(if false 1)"), "nil");
}

#[test]
fn deep_recursion_completes_within_fuel() {
    let out = run_all(&[
        "(def! f (fn [n] (if (<= n 0) 0 (+ n (f (- n 1))))))",
        "(f 100)",
    ]);
    assert_eq!(out, "5050");
}

#[test]
fn deep_recursion_is_bounded_by_fuel() {
    // The recursive shape is not tail-recursive, so depth is bounded:
    // exhausting the fuel is a clean evaluation error, not a crash.
    let ops = HostFloat;
    let mut st = Interp::default();
    let _ = rep(&ops, &mut st, 0, "(def! f (fn [n] (if (<= n 0) 0 (+ n (f (- n 1))))))", FUEL);
    let out = rep(&ops, &mut st, 0, "(f 100000)", 2_000);
    assert!(out.contains("ERROR: evaluation depth exceeded"), "got: {}", out);
}

#[test]
fn unresolved_symbol_names_itself() {
    let out = run("undefined-sym");
    assert!(out.contains("'undefined-sym' not found"), "got: {}", out);
}

#[test]
fn applying_a_non_callable_is_distinct() {
    let out = run("(1 2 3)");
    assert!(out.contains("ERROR: not callable"), "got: {}", out);
}

#[test]
fn inner_let_shadows_and_outer_survives() {
    assert_eq!(run("(let [x 1] (let [x 2] x))"), "2");
    let out = run_all(&["(def! x 7)", "(let [x 1] x)", "x"]);
    assert_eq!(out, "7");
}

#[test]
fn define_binds_in_current_scope() {
    assert_eq!(run_all(&["(def! y 5)", "y"]), "5");
    assert_eq!(run("(def! y 5)"), "5");
}

#[test]
fn closures_capture_their_scope() {
    let out = run_all(&[
        "(def! make (fn [a] (fn [b] (+ a b))))",
        "(def! add3 (make 3))",
        "(add3 4)",
    ]);
    assert_eq!(out, "7");
}

#[test]
fn variadic_parameter_takes_the_whole_list() {
    assert_eq!(run("((fn xs xs) 1 2 3)"), "(1 2 3)");
    assert_eq!(run("((fn* [x] x) 9)"), "9");
    assert_eq!(run("((fn [a b] (+ a b)) 3 4)"), "7");
}

#[test]
fn do_yields_the_last_value() {
    assert_eq!(run("(do 1 2 3)"), "3");
    assert_eq!(run("(do)"), "nil");
}

#[test]
fn list_primitives() {
    assert_eq!(run("(list 1 2)"), "(1 2)");
    assert_eq!(run("(count (list 1 2 3))"), "3");
    assert_eq!(run("(count nil)"), "0");
    assert_eq!(run("(empty? (list))"), "true");
    assert_eq!(run("(empty? (list 1))"), "false");
    assert_eq!(run("(list? (list))"), "true");
    assert_eq!(run("(list? 1)"), "false");
}

#[test]
fn equality_is_structural() {
    assert_eq!(run("(= (list 1 2) (list 1 2))"), "true");
    assert_eq!(run("(= 1 2)"), "false");
    assert_eq!(run("(= \"a\" \"a\")"), "true");
    assert_eq!(run("(= 2.5 2.5)"), "true");
    assert_eq!(run("(= (list 1) 1)"), "false");
    assert_eq!(run("(= {:a 1 :b 2} {:b 2 :a 1})"), "true");
    assert_eq!(run("(= {:a 1} {:a 2})"), "false");
    assert_eq!(run("(= {:a 1} {:b 1})"), "false");
}

#[test]
fn callables_compare_by_identity() {
    assert_eq!(run("(= + +)"), "true");
    assert_eq!(run("(= + -)"), "false");
    assert_eq!(run("(= (fn [x] x) (fn [x] x))"), "false");
}

#[test]
fn comparisons() {
    assert_eq!(run("(< 1 2)"), "true");
    assert_eq!(run("(<= 2 2)"), "true");
    assert_eq!(run("(> 1 2)"), "false");
    assert_eq!(run("(>= 3 2)"), "true");
    assert_eq!(run("(< 1.5 2.5)"), "true");
    assert_eq!(run("(< 1 2.5)"), "true");
}

#[test]
fn integer_div_and_mod_truncate() {
    assert_eq!(run("(div 7 2)"), "3");
    assert_eq!(run("(div -7 2)"), "-3");
    assert_eq!(run("(mod 7 2)"), "1");
    assert_eq!(run("(mod -7 2)"), "-1");
    let out = run("(div 1.5 2)");
    assert!(out.contains("ERROR:"), "got: {}", out);
}

#[test]
fn square_root() {
    assert_eq!(run("(sqrt 4)"), "2");
    let out = run("(sqrt -1)");
    assert!(out.contains("ERROR: requires non-negative argument"), "got: {}", out);
}

#[test]
fn integer_arithmetic_wraps() {
    assert_eq!(run("(+ 9223372036854775807 1)"), "-9223372036854775808");
    assert_eq!(run("(div -9223372036854775808 -1)"), "-9223372036854775808");
}

#[test]
fn printed_forms_read_back() {
    let samples = [
        "(1 2 (3 4) [5 6] {:a 1} \"x\" :kw sym nil true false -7)",
        "()",
        "[]",
        "{}",
        "(quote x)",
        "\"a\\\"b\"",
        "\"back\\\\slash\"",
        "{:a 1 :b 2}",
        "(((((1 [2 {:k (3)}])))))",
        "{\"s\" [1 2] :k {:n 0}}",
    ];
    for s in samples {
        assert_eq!(round_trip(s), s, "round trip of {}", s);
    }
}

#[test]
fn quote_sugar_wraps_the_next_form() {
    assert_eq!(round_trip("'x"), "(quote x)");
}

#[test]
fn commas_and_comments_are_discarded() {
    assert_eq!(run("(+ 1,2)"), "3");
    let out = run("; nothing here");
    assert!(out.contains("ERROR: nothing to read"), "got: {}", out);
    let out = run("");
    assert!(out.contains("ERROR: nothing to read"), "got: {}", out);
}

#[test]
fn literal_spellings() {
    assert_eq!(run("NIL"), "nil");
    assert_eq!(run("True"), "true");
    assert_eq!(run("FALSE"), "false");
}

#[test]
fn read_errors() {
    let out = run("(1 2");
    assert!(out.contains("ERROR: unexpected end of input"), "got: {}", out);
    let out = run(")");
    assert!(out.contains("ERROR: unexpected closing delimiter"), "got: {}", out);
    let out = run("\"abc");
    assert!(out.contains("ERROR: unbalanced string"), "got: {}", out);
    let out = run("{:a}");
    assert!(out.contains("ERROR: map literal"), "got: {}", out);
    let out = run("{(list) 1}");
    assert!(out.contains("ERROR: invalid map key"), "got: {}", out);
}

#[test]
fn string_escapes_round_trip_through_equality() {
    assert_eq!(run("(= \"a\\\"b\" \"a\\\"b\")"), "true");
    let out = run("\"a\\nb\"");
    assert!(out.contains("ERROR: malformed escape"), "got: {}", out);
}

#[test]
fn vectors_and_maps_evaluate_their_contents() {
    assert_eq!(run("[1 (+ 1 1) 3]"), "[1 2 3]");
    assert_eq!(run("{:a (+ 1 1)}"), "{:a 2}");
}

#[test]
fn big_integer_tokens_fall_through_to_float() {
    assert_eq!(run("9223372036854775808"), "9223372036854776000");
}

#[test]
fn prn_emits_a_line_and_yields_nil() {
    let ops = HostFloat;
    let mut st = Interp::default();
    let out = rep(&ops, &mut st, 0, "(prn 1 2)", FUEL);
    assert_eq!(out, "nil");
    assert_eq!(st.emitted, vec![" 1 2".to_string()]);
}

#[test]
fn prn_of_nothing_emits_an_empty_line() {
    let ops = HostFloat;
    let mut st = Interp::default();
    let out = rep(&ops, &mut st, 0, "(prn)", FUEL);
    assert_eq!(out, "nil");
    assert_eq!(st.emitted, vec![String::new()]);
}

#[test]
fn define_inside_let_stays_in_the_inner_scope() {
    let ops = HostFloat;
    let mut st = Interp::default();
    assert_eq!(rep(&ops, &mut st, 0, "(let [x 1] (do (def! y 2) y))", FUEL), "2");
    let out = rep(&ops, &mut st, 0, "y", FUEL);
    assert!(out.contains("'y' not found"), "got: {}", out);
}

#[test]
fn callables_print_opaquely() {
    assert_eq!(run("(fn [x] x)"), "<(anonymous interpreted function)>");
    assert_eq!(run("+"), "<+ (builtin function)>");
}
