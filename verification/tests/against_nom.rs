use nom::branch::alt;
use nom::bytes::complete::{is_not, tag};
use nom::character::complete::{
    alphanumeric1, char, digit1, multispace0, none_of, one_of, space1,
};
use nom::combinator::recognize;
use nom::multi::many1;
use nom::sequence::{delimited, preceded, terminated, tuple};
use nom::IResult;
use predicat::base_parser::Language::{Element as E, NotElement as NE, NotVar as NV, Var as V};
use predicat::base_parser::{CommandType, Comp, Element, Language, PredicatAST, Var};
use predicat::grammar::{ErrorKind, ParseFailure};
use predicat::triplet::Triplet;
use predicat::triplet::Triplet::{
    TNeee, TNeev, TNeve, TNevv, TNvee, TNvev, TNvve, TNvvv, Teee, Teev, Teve, Tevv, Tvee, Tvev,
    Tvve, Tvvv,
};

type Query = (Vec<Var>, Vec<Triplet>, Vec<Comp>);

fn kind(code: nom::error::ErrorKind) -> ErrorKind {
    match code {
        nom::error::ErrorKind::Tag => ErrorKind::Tag,
        nom::error::ErrorKind::Char => ErrorKind::Char,
        nom::error::ErrorKind::OneOf => ErrorKind::OneOf,
        nom::error::ErrorKind::NoneOf => ErrorKind::NoneOf,
        nom::error::ErrorKind::Space => ErrorKind::Space,
        nom::error::ErrorKind::AlphaNumeric => ErrorKind::AlphaNumeric,
        nom::error::ErrorKind::Digit => ErrorKind::Digit,
        nom::error::ErrorKind::IsNot => ErrorKind::IsNot,
        other => panic!("a kind of failure that the library does not have: {:?}", other),
    }
}

fn expected<'a, T>(result: IResult<&'a str, T>) -> Result<(&'a str, T), ParseFailure<'a>> {
    match result {
        Ok(read) => Ok(read),
        Err(nom::Err::Error(e)) => Err(ParseFailure { input: e.input, code: kind(e.code) }),
        Err(other) => panic!("a failure that is no error: {:?}", other.map(|e| e.code)),
    }
}

fn nom_bar(s: &str) -> IResult<&str, &str> {
    alt((tag(" | "), tag("| "), tag(" |"), tag("|")))(s)
}

fn nom_variable_or_star(s: &str) -> IResult<&str, Language> {
    let (rest, name) = alt((preceded(char('$'), alphanumeric1), tag("*")))(s)?;
    Ok((rest, Language::Var(name.to_string())))
}

fn nom_pure_variable(s: &str) -> IResult<&str, Language> {
    preceded(space1, nom_variable_or_star)(s)
}

fn nom_not_variable(s: &str) -> IResult<&str, Language> {
    match preceded(tag(" not"), nom_pure_variable)(s)? {
        (rest, Language::Var(v)) => Ok((rest, Language::NotVar(v))),
        (rest, _) => Ok((rest, Language::Empty)),
    }
}

fn nom_variable(s: &str) -> IResult<&str, Language> {
    alt((nom_not_variable, nom_pure_variable))(s)
}

fn nom_term(s: &str) -> IResult<&str, Element> {
    let (rest, found) =
        many1(one_of("abcdefghijklmnopqrstuvwxyzABCDEFGHIJKLMNOPQRSTUVWXYZ0123456789_"))(s)?;
    Ok((rest, Element::Term(found.iter().collect())))
}

fn nom_quoted(s: &str) -> IResult<&str, Element> {
    let (rest, found) = delimited(tag("'"), many1(none_of("'")), tag("'"))(s)?;
    Ok((rest, Element::String(found.iter().collect())))
}

fn nom_pure_element(s: &str) -> IResult<&str, Language> {
    let (rest, e) = preceded(multispace0, alt((nom_term, nom_quoted)))(s)?;
    Ok((rest, Language::Element(e)))
}

fn nom_not_element(s: &str) -> IResult<&str, Language> {
    match preceded(tag(" not"), nom_pure_element)(s)? {
        (rest, Language::Element(e)) => Ok((rest, Language::NotElement(e))),
        (rest, _) => Ok((rest, Language::Empty)),
    }
}

fn nom_element(s: &str) -> IResult<&str, Language> {
    alt((nom_not_element, nom_pure_element))(s)
}

fn text(e: Element) -> String {
    String::from(e)
}

fn nom_triplet(s: &str) -> IResult<&str, Language> {
    let (t, read) = alt((
        tuple((nom_element, nom_element, nom_element)),
        tuple((nom_variable, nom_element, nom_element)),
        tuple((nom_element, nom_variable, nom_element)),
        tuple((nom_element, nom_element, nom_variable)),
        tuple((nom_variable, nom_variable, nom_element)),
        tuple((nom_variable, nom_element, nom_variable)),
        tuple((nom_element, nom_variable, nom_variable)),
        tuple((nom_variable, nom_variable, nom_variable)),
    ))(s)?;
    let tri = match read {
        (E(a), E(b), E(c)) => Teee(text(a), text(b), text(c)),
        (V(a), E(b), E(c)) => Tvee(a, text(b), text(c)),
        (E(a), V(b), E(c)) => Teve(text(a), b, text(c)),
        (E(a), E(b), V(c)) => Teev(text(a), text(b), c),
        (V(a), V(b), E(c)) => Tvve(a, b, text(c)),
        (V(a), E(b), V(c)) => Tvev(a, text(b), c),
        (E(a), V(b), V(c)) => Tevv(text(a), b, c),
        (V(a), V(b), V(c)) => Tvvv(a, b, c),
        (NE(a), E(b), E(c)) | (E(a), NE(b), E(c)) | (E(a), E(b), NE(c)) => {
            TNeee(text(a), text(b), text(c))
        }
        (NV(a), E(b), E(c)) | (V(a), NE(b), E(c)) | (V(a), E(b), NE(c)) => {
            TNvee(a, text(b), text(c))
        }
        (NE(a), V(b), E(c)) | (E(a), NV(b), E(c)) | (E(a), V(b), NE(c)) => {
            TNeve(text(a), b, text(c))
        }
        (NE(a), E(b), V(c)) | (E(a), NE(b), V(c)) | (E(a), E(b), NV(c)) => {
            TNeev(text(a), text(b), c)
        }
        (NV(a), V(b), E(c)) | (V(a), NV(b), E(c)) | (V(a), V(b), NE(c)) => {
            TNvve(a, b, text(c))
        }
        (NV(a), E(b), V(c)) | (V(a), NE(b), V(c)) | (V(a), E(b), NV(c)) => {
            TNvev(a, text(b), c)
        }
        (NE(a), V(b), V(c)) | (E(a), NV(b), V(c)) | (E(a), V(b), NV(c)) => {
            TNevv(text(a), b, c)
        }
        (NV(a), V(b), V(c)) | (V(a), NV(b), V(c)) | (V(a), V(b), NV(c)) => TNvvv(a, b, c),
        _ => return Ok((t, Language::Empty)),
    };
    Ok((t, Language::Tri(tri)))
}

fn nom_triplet_and(s: &str) -> IResult<&str, Language> {
    alt((terminated(nom_triplet, tag(" and")), nom_triplet))(s)
}

fn nom_operator(s: &str) -> IResult<&str, &str> {
    preceded(space1, alt((tag("=="), tag("!="), tag("<="), tag(">="), tag("<"), tag(">"))))(s)
}

fn nom_recognize_variable(s: &str) -> IResult<&str, &str> {
    preceded(space1, recognize(preceded(char('$'), alphanumeric1)))(s)
}

fn nom_string(s: &str) -> IResult<&str, &str> {
    recognize(preceded(space1, delimited(char('\''), is_not("\'"), char('\''))))(s)
}

fn nom_number(s: &str) -> IResult<&str, &str> {
    preceded(
        space1,
        alt((
            recognize(tuple((char('-'), digit1, char('.'), digit1))),
            recognize(tuple((digit1, char('.'), digit1))),
            recognize(tuple((char('-'), digit1))),
            digit1,
        )),
    )(s)
}

fn nom_value(s: &str) -> IResult<&str, &str> {
    alt((nom_string, nom_number))(s)
}

fn nom_valvar(s: &str) -> IResult<&str, &str> {
    alt((nom_recognize_variable, nom_value))(s)
}

fn nom_comparison(s: &str) -> IResult<&str, Language> {
    let (rest, read) = recognize(tuple((nom_valvar, nom_operator, nom_valvar)))(s)?;
    Ok((rest, Language::Comp(read.to_string())))
}

fn nom_comparison_and(s: &str) -> IResult<&str, Language> {
    alt((terminated(nom_comparison, tag(" and")), nom_comparison))(s)
}

fn nom_connector(s: &str) -> IResult<&str, Language> {
    let (rest, _) =
        alt((tag(" such_as"), tag(" who_is"), tag(" who_are"), tag(" who_has"), tag(" where")))(
            s,
        )?;
    Ok((rest, Language::Connector))
}

fn nom_get(s: &str) -> IResult<&str, Language> {
    let (rest, _) = tag("get")(s)?;
    Ok((rest, Language::Get))
}

fn vars(read: Vec<Language>) -> Vec<Var> {
    read.iter().flat_map(Language::get_var).collect()
}

fn triplets(read: Vec<Language>) -> Vec<Triplet> {
    read.iter().flat_map(predicat::base_parser::extract_triplet).collect()
}

fn comps(read: Vec<Language>) -> Vec<Comp> {
    read.iter().flat_map(Language::get_comp).collect()
}

fn nom_query_var1(s: &str) -> IResult<&str, Query> {
    let (r, (_, var, _, tri, comp)) = tuple((
        nom_get,
        many1(nom_variable),
        nom_connector,
        many1(nom_triplet_and),
        many1(nom_comparison_and),
    ))(s)?;
    Ok((r, (vars(var), triplets(tri), comps(comp))))
}

fn nom_query_var2(s: &str) -> IResult<&str, Query> {
    let (r, (_, var, _, tri)) =
        tuple((nom_get, many1(nom_variable), nom_connector, many1(nom_triplet_and)))(s)?;
    Ok((r, (vars(var), triplets(tri), vec![])))
}

fn nom_query_var3(s: &str) -> IResult<&str, Query> {
    let (r, (_, var, _, comp)) =
        tuple((nom_get, many1(nom_variable), nom_connector, many1(nom_comparison_and)))(s)?;
    Ok((r, (vars(var), vec![Triplet::Empty], comps(comp))))
}

fn nom_query(s: &str) -> IResult<&str, PredicatAST> {
    let (r, q) = alt((nom_query_var1, nom_query_var2, nom_query_var3))(s)?;
    Ok((r, PredicatAST::Query(q)))
}

fn nom_add(s: &str) -> IResult<&str, PredicatAST> {
    let (r, v) = preceded(tag("add"), many1(nom_triplet_and))(s)?;
    Ok((r, PredicatAST::AddModifier(triplets(v))))
}

fn nom_delete(s: &str) -> IResult<&str, PredicatAST> {
    let (r, v) = preceded(tag("delete"), many1(nom_triplet_and))(s)?;
    Ok((r, PredicatAST::DeleteModifier(triplets(v))))
}

fn nom_modifier(s: &str) -> IResult<&str, PredicatAST> {
    alt((nom_add, nom_delete))(s)
}

fn nom_query_and_modifier(s: &str) -> IResult<&str, PredicatAST> {
    if s.len() > 3 && s.is_char_boundary(3) && &s[0..3] == "get" {
        nom_query(s)
    } else {
        nom_modifier(s)
    }
}

fn nom_query_and_modifier_bar(s: &str) -> IResult<&str, PredicatAST> {
    terminated(nom_query_and_modifier, nom_bar)(s)
}

fn nom_trigger(s: &str) -> IResult<&str, (CommandType, Vec<Triplet>, &str)> {
    let (_, part) = recognize(nom_modifier)(s)?;
    match nom_modifier(s)? {
        (rest, PredicatAST::AddModifier(v)) => Ok((rest, (CommandType::Add, v, part))),
        (rest, PredicatAST::DeleteModifier(v)) => Ok((rest, (CommandType::Delete, v, part))),
        _ => unreachable!(),
    }
}

fn nom_infer(s: &str) -> IResult<&str, PredicatAST> {
    let (rest, (_, (ty, tri, premise), _, body)) = tuple((
        tag("infer "),
        nom_trigger,
        tag(" -> "),
        recognize(nom_query_and_modifier),
    ))(s)?;
    Ok((rest, PredicatAST::Infer((ty, tri), premise.to_string(), body.to_string())))
}

fn nom_commands(s: &str) -> IResult<&str, Vec<PredicatAST>> {
    many1(alt((nom_query_and_modifier_bar, nom_query_and_modifier, nom_infer)))(s)
}

fn slot_texts() -> Vec<&'static str> {
    vec![
        "", " a", " $A", " not a", " not $A", " 'x y'", " *", " not", " $", " a_b", "\tb",
        " notable", " and", "  c", " not  $B", " not 'q'", "\n d", " 'open", " ''", " é", " $é",
        " 4",
    ]
}

fn endings() -> Vec<&'static str> {
    vec!["", " and", " and d e f", " | ", " -> add a b c", "and", " AND x y z", ";"]
}

fn pattern_texts() -> Vec<String> {
    let mut texts = Vec::new();
    for a in slot_texts() {
        for b in slot_texts() {
            for c in slot_texts() {
                for end in endings() {
                    texts.push(format!("{}{}{}{}", a, b, c, end));
                    texts.push(format!("{}{}{}{}", a.trim_start(), b, c, end));
                }
            }
        }
    }
    texts
}

fn operand_texts() -> Vec<&'static str> {
    vec![
        "", " $A", " 4", " -4", " 4.5", " -4.5", " 4.", " .5", " -", " 'x'", " 'x y'", " ''",
        " 'x", " x", "  $B2", "\t7", " $", "$A", " 4.5.6", " --4", " $é", " 'é'", " 4-", " -4.x",
    ]
}

fn operator_texts() -> Vec<&'static str> {
    vec!["", " ==", " !=", " <=", " >=", " <", " >", " =", " <>", "==", "  >", " !", " =<"]
}

fn comparison_texts() -> Vec<String> {
    let mut texts = Vec::new();
    for a in operand_texts() {
        for op in operator_texts() {
            for b in operand_texts() {
                for end in ["", " and", " and 1 < 2", " AND 6 < 9 | ", " | "] {
                    texts.push(format!("{}{}{}{}", a, op, b, end));
                }
            }
        }
    }
    texts
}

fn command_texts() -> Vec<String> {
    let heads = ["get", "get $A", "get $A $B", "get not $A", "get *", "ge", "gets $A", "get$A"];
    let connectors = [" where", " such_as", " who_is", " who_are", " who_has", " whom", "", "where"];
    let bodies = [
        "",
        " $A est mortel",
        " $A est mortel and $A > 4",
        " $A > 4",
        " $A > 4 and $A < 'z'",
        " $A est mortel and not $A est dieu",
        " $A est mortel and",
        " $A est mortel and $B",
        " a b c and d e $F and 1 < 2 and 3 >= 2 and",
        " not a not b c",
        " not a not b c and $A > 4",
        " $A est",
    ];
    let modifiers = [
        "add a b c", "delete a b c", "add a b c and d e f", "add $A ami $B", "add", "delete",
        "add a b", "adda b c", "add not a b c and not d not e f", "delete 'x y' r *",
        "insert a b c", "add a b c and", "add a b c d e f",
    ];
    let mut singles: Vec<String> = Vec::new();
    for head in heads {
        for connector in connectors {
            for body in bodies {
                singles.push(format!("{}{}{}", head, connector, body));
            }
        }
    }
    for modifier in modifiers {
        singles.push(modifier.to_string());
    }
    let mut texts = singles.clone();
    let seconds = ["add g h i", "get $X where $X r s", "delete g h i", "nothing", ""];
    for first in &singles {
        for bar in [" | ", "| ", " |", "|", " || ", " ; "] {
            for second in seconds {
                texts.push(format!("{}{}{}", first, bar, second));
            }
        }
    }
    for trigger in modifiers {
        for arrow in [" -> ", " ->", "-> ", " => "] {
            for body in modifiers.iter().chain(["get $A where $A b c", "get $A", ""].iter()) {
                texts.push(format!("infer {}{}{}", trigger, arrow, body));
                texts.push(format!("infer{}{}{} | add a b c", trigger, arrow, body));
            }
        }
    }
    texts
}

#[test]
fn slots_are_read_as_the_combinators_read_them() {
    for a in slot_texts() {
        for end in endings() {
            let input = format!("{}{}", a, end);
            assert_eq!(
                predicat::base_parser::parse_variable(&input),
                expected(nom_variable(&input)),
                "variable in {:?}",
                input
            );
            assert_eq!(
                predicat::base_parser::parse_element(&input),
                expected(nom_element(&input)),
                "element in {:?}",
                input
            );
            assert_eq!(
                predicat::base_parser::parse_pure_variable(&input),
                expected(nom_pure_variable(&input)),
                "pure variable in {:?}",
                input
            );
            assert_eq!(
                predicat::base_parser::parse_term(input.trim_start()),
                expected(nom_term(input.trim_start())),
                "term in {:?}",
                input
            );
            assert_eq!(
                predicat::base_parser::parse_bar(&end[..]),
                expected(nom_bar(&end[..])),
                "bar in {:?}",
                end
            );
        }
    }
}

#[test]
fn patterns_are_read_as_the_combinators_read_them() {
    let texts = pattern_texts();
    assert!(texts.len() > 100_000);
    for input in &texts {
        assert_eq!(
            predicat::base_parser::parse_triplet(input),
            expected(nom_triplet(input)),
            "pattern in {:?}",
            input
        );
    }
}

#[test]
fn patterns_with_and_are_read_as_the_combinators_read_them() {
    for input in pattern_texts().iter().step_by(7) {
        assert_eq!(
            predicat::base_parser::parse_triplet_and(input),
            expected(nom_triplet_and(input)),
            "pattern and in {:?}",
            input
        );
    }
}

#[test]
fn operands_are_read_as_the_combinators_read_them() {
    for a in operand_texts() {
        for b in operator_texts() {
            let input = format!("{}{}", a, b);
            assert_eq!(
                predicat::parse_query::parse_number(&input),
                expected(nom_number(&input)),
                "number in {:?}",
                input
            );
            assert_eq!(
                predicat::parse_query::parse_string(&input),
                expected(nom_string(&input)),
                "string in {:?}",
                input
            );
            assert_eq!(
                predicat::parse_query::parse_value(&input),
                expected(nom_value(&input)),
                "value in {:?}",
                input
            );
            assert_eq!(
                predicat::parse_query::parse_valvar(&input),
                expected(nom_valvar(&input)),
                "operand in {:?}",
                input
            );
            assert_eq!(
                predicat::parse_query::recognize_variable(&input),
                expected(nom_recognize_variable(&input)),
                "variable in {:?}",
                input
            );
            let reversed = format!("{}{}", b, a);
            assert_eq!(
                predicat::parse_query::parse_operator(&reversed),
                expected(nom_operator(&reversed)),
                "operator in {:?}",
                reversed
            );
            assert_eq!(
                predicat::parse_query::parse_connector(&reversed),
                expected(nom_connector(&reversed)),
                "connector in {:?}",
                reversed
            );
        }
    }
}

#[test]
fn comparisons_are_read_as_the_combinators_read_them() {
    let texts = comparison_texts();
    assert!(texts.len() > 30_000);
    for input in &texts {
        assert_eq!(
            predicat::parse_query::parse_comparison(input),
            expected(nom_comparison(input)),
            "comparison in {:?}",
            input
        );
        assert_eq!(
            predicat::parse_query::parse_comparison_and(input),
            expected(nom_comparison_and(input)),
            "comparison and in {:?}",
            input
        );
    }
}

#[test]
fn queries_and_modifiers_are_read_as_the_combinators_read_them() {
    for input in &command_texts() {
        assert_eq!(
            predicat::parse_query::parse_get(input),
            expected(nom_get(input)),
            "get in {:?}",
            input
        );
        assert_eq!(
            predicat::parse_query::parse_query_var1(input),
            expected(nom_query_var1(input)),
            "query with both in {:?}",
            input
        );
        assert_eq!(
            predicat::parse_query::parse_query_var2(input),
            expected(nom_query_var2(input)),
            "query with patterns in {:?}",
            input
        );
        assert_eq!(
            predicat::parse_query::parse_query_var3(input),
            expected(nom_query_var3(input)),
            "query with comparisons in {:?}",
            input
        );
        assert_eq!(
            predicat::parse_query::parse_query(input),
            expected(nom_query(input)),
            "query in {:?}",
            input
        );
        assert_eq!(
            predicat::parse_modifier::parse_add_modifier(input),
            expected(nom_add(input)),
            "addition in {:?}",
            input
        );
        assert_eq!(
            predicat::parse_modifier::parse_delete_modifier(input),
            expected(nom_delete(input)),
            "deletion in {:?}",
            input
        );
        assert_eq!(
            predicat::parse_modifier::parse_modifier(input),
            expected(nom_modifier(input)),
            "modifier in {:?}",
            input
        );
        assert_eq!(
            predicat::parser::parse_query_and_modifier(input),
            expected(nom_query_and_modifier(input)),
            "query or modifier in {:?}",
            input
        );
        assert_eq!(
            predicat::parser::parse_query_and_modifier_bar(input),
            expected(nom_query_and_modifier_bar(input)),
            "query or modifier and bar in {:?}",
            input
        );
    }
}

#[test]
fn inputs_are_read_as_the_combinators_read_them() {
    for input in &command_texts() {
        assert_eq!(
            predicat::parser::parse_infer(input),
            expected(nom_infer(input)),
            "rule in {:?}",
            input
        );
        let wanted = match nom_commands(input) {
            Ok((_, commands)) => commands,
            Err(_) => vec![],
        };
        assert_eq!(predicat::parser::parse_command(input), wanted, "commands in {:?}", input);
        let tried = match expected(nom_commands(input)) {
            Ok((_, commands)) => Ok(commands),
            Err(e) => Err(e),
        };
        assert_eq!(predicat::parser::try_parse_command(input), tried, "commands in {:?}", input);
    }
}
