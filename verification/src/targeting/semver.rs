//! The `sem_ver` operator: compares two semantic versions with one of the
//! operators `=`, `!=`, `<`, `<=`, `>`, `>=`, `^` (same major version) and
//! `~` (same major and minor version).

use vstd::prelude::*;
use crate::json::{Json, JsonValue, json_get, json_str, items_model, lemma_items_model};
use crate::text::{str_eq, split_once, split_once_spec};

verus! {

broadcast use vstd::string::group_string_axioms;

/// A parsed version as plain values: major, minor and patch numbers, the
/// pre-release identifiers and the build metadata.
pub type VersionModel = (u64, u64, u64, Seq<char>, Seq<char>);

#[verifier::external_type_specification]
#[verifier::external_body]
pub struct ExVersion(semver::Version);

/// A semantic version as `semver::Version::parse` reads it.
pub struct SemVersion {
    major: u64,
    minor: u64,
    patch: u64,
    pre: String,
    build: String,
    version: semver::Version,
}

impl View for SemVersion {
    type V = VersionModel;

    closed spec fn view(&self) -> VersionModel {
        (self.major, self.minor, self.patch, self.pre@, self.build@)
    }
}

impl SemVersion {
    /// The major version number.
    pub fn major(&self) -> (r: u64)
        ensures
            r == self@.0,
    {
        self.major
    }

    /// The minor version number.
    pub fn minor(&self) -> (r: u64)
        ensures
            r == self@.1,
    {
        self.minor
    }

    /// The patch version number.
    pub fn patch(&self) -> (r: u64)
        ensures
            r == self@.2,
    {
        self.patch
    }
}

/// What `semver::Version::parse` makes of a text: the version's parts, or
/// `None` when the text is no semantic version.
pub uninterp spec fn semver_parse(text: Seq<char>) -> Option<VersionModel>;

/// How `semver::Version` orders two versions: -1, 0 or 1.
pub uninterp spec fn semver_order(a: VersionModel, b: VersionModel) -> i8;

/// Calls `semver::Version::parse`. The contract claims that the result is
/// a function of the text alone, named `semver_parse`, and that the parts
/// held are those of the parsed version; which texts parse is not stated.
#[verifier::external_body]
fn parse_version(text: &str) -> (r: Option<SemVersion>)
    ensures
        match semver_parse(text@) {
            Some(v) => r matches Some(x) && x@ == v,
            None => r is None,
        },
{
    match semver::Version::parse(text) {
        Ok(v) => Some(SemVersion {
            major: v.major,
            minor: v.minor,
            patch: v.patch,
            pre: v.pre.as_str().to_string(),
            build: v.build.as_str().to_string(),
            version: v,
        }),
        Err(_) => None,
    }
}

/// Calls `Ord::cmp` on two `semver::Version`s and gives -1, 0 or 1. The
/// contract claims what the crate's derived ordering shows: the result is a
/// function of the two versions, zero exactly when they are equal, reversed
/// when they are swapped, and decided by major, minor and patch numbers in
/// that order where these differ. How pre-release identifiers and build
/// metadata order is not stated.
#[verifier::external_body]
fn compare_versions(a: &SemVersion, b: &SemVersion) -> (r: i8)
    ensures
        r == semver_order(a@, b@),
        -1 <= r <= 1,
        (r == 0) == (a@ == b@),
        r == -semver_order(b@, a@),
        a@.0 < b@.0 ==> r == -1,
        a@.0 > b@.0 ==> r == 1,
        a@.0 == b@.0 && a@.1 < b@.1 ==> r == -1,
        a@.0 == b@.0 && a@.1 > b@.1 ==> r == 1,
        a@.0 == b@.0 && a@.1 == b@.1 && a@.2 < b@.2 ==> r == -1,
        a@.0 == b@.0 && a@.1 == b@.1 && a@.2 > b@.2 ==> r == 1,
{
    match a.version.cmp(&b.version) {
        std::cmp::Ordering::Less => -1,
        std::cmp::Ordering::Equal => 0,
        std::cmp::Ordering::Greater => 1,
    }
}

/// The characters of the string found under `j`, if it is one.
pub open spec fn opt_str(j: Option<Json>) -> Option<Seq<char>> {
    match j {
        Some(Json::Str(s)) => Some(s),
        _ => None,
    }
}

/// The version text an argument stands for: a string as it is, or an object
/// `{"var": name}` naming a string in the evaluation data, either at the
/// top level or, for `$flagd.field`, under `$flagd`.
pub open spec fn semver_operand(arg: Json, data: Json) -> Option<Seq<char>> {
    match arg {
        Json::Str(s) => Some(s),
        _ => match json_get(arg, "var"@) {
            Some(Json::Str(name)) => match opt_str(json_get(data, name)) {
                Some(v) => Some(v),
                None => match split_once_spec(name, '.') {
                    Some(parts) => if parts.0 == "$flagd"@ {
                        match json_get(data, "$flagd"@) {
                            Some(f) => opt_str(json_get(f, parts.1)),
                            None => None,
                        }
                    } else {
                        None
                    },
                    None => None,
                },
            },
            _ => None,
        },
    }
}

/// The outcome of comparing two parsed versions with an operator, or `None`
/// for an unknown operator.
pub open spec fn compare_with(op: Seq<char>, a: VersionModel, b: VersionModel) -> Option<bool> {
    if op == "="@ {
        Some(a == b)
    } else if op == "!="@ {
        Some(a != b)
    } else if op == "<"@ {
        Some(semver_order(a, b) < 0)
    } else if op == "<="@ {
        Some(semver_order(a, b) <= 0)
    } else if op == ">"@ {
        Some(semver_order(a, b) > 0)
    } else if op == ">="@ {
        Some(semver_order(a, b) >= 0)
    } else if op == "^"@ {
        Some(a.0 == b.0)
    } else if op == "~"@ {
        Some(a.0 == b.0 && a.1 == b.1)
    } else {
        None
    }
}

/// What `sem_ver` yields for its evaluated arguments and the data: a
/// boolean, or null when there are not exactly three arguments, an operand
/// is no version, or the operator is unknown.
pub open spec fn semver_result(args: Seq<Json>, data: Json) -> Json {
    if args.len() != 3 {
        Json::Null
    } else {
        match (semver_operand(args[0], data), json_str(args[1]), semver_operand(args[2], data)) {
            (Some(t1), Some(op), Some(t2)) => match (semver_parse(t1), semver_parse(t2)) {
                (Some(v1), Some(v2)) => match compare_with(op, v1, v2) {
                    Some(b) => Json::Bool(b),
                    None => Json::Null,
                },
                _ => Json::Null,
            },
            _ => Json::Null,
        }
    }
}

/// The string under `key` in `data`, if there is one.
fn str_at(data: &JsonValue, key: &str) -> (r: Option<String>)
    ensures
        match opt_str(json_get(data@, key@)) {
            Some(s) => r matches Some(x) && x@ == s,
            None => r is None,
        },
{
    match data.get(key) {
        Some(v) => match v.as_str() {
            Some(s) => Some(s.to_string()),
            None => None,
        },
        None => None,
    }
}

/// The version text an argument stands for.
fn resolve_operand(arg: &JsonValue, data: &JsonValue) -> (r: Option<String>)
    ensures
        match semver_operand(arg@, data@) {
            Some(s) => r matches Some(x) && x@ == s,
            None => r is None,
        },
{
    if let Some(s) = arg.as_str() {
        return Some(s.to_string());
    }
    let name = match str_at(arg, "var") {
        Some(n) => n,
        None => {
            return None;
        },
    };
    if let Some(v) = str_at(data, name.as_str()) {
        return Some(v);
    }
    match split_once(name.as_str(), '.') {
        Some((prefix, field)) => {
            if str_eq(prefix.as_str(), "$flagd") {
                match data.get("$flagd") {
                    Some(f) => str_at(f, field.as_str()),
                    None => None,
                }
            } else {
                None
            }
        },
        None => None,
    }
}

/// The outcome of comparing two versions with an operator.
fn apply_operator(op: &str, a: &SemVersion, b: &SemVersion) -> (r: Option<bool>)
    ensures
        r == compare_with(op@, a@, b@),
{
    let order = compare_versions(a, b);
    if str_eq(op, "=") {
        Some(order == 0)
    } else if str_eq(op, "!=") {
        Some(order != 0)
    } else if str_eq(op, "<") {
        Some(order < 0)
    } else if str_eq(op, "<=") {
        Some(order <= 0)
    } else if str_eq(op, ">") {
        Some(order > 0)
    } else if str_eq(op, ">=") {
        Some(order >= 0)
    } else if str_eq(op, "^") {
        Some(a.major() == b.major())
    } else if str_eq(op, "~") {
        Some(a.major() == b.major() && a.minor() == b.minor())
    } else {
        None
    }
}

/// The `sem_ver` operator.
pub struct SemVerOperator;

impl SemVerOperator {
    /// Evaluates `sem_ver` on its evaluated arguments against the
    /// evaluation data.
    pub fn evaluate(&self, args: &[JsonValue], data: &JsonValue) -> (r: JsonValue)
        ensures
            r@ == semver_result(items_model(args@), data@),
    {
        proof {
            lemma_items_model(args@);
        }
        if args.len() != 3 {
            return JsonValue::Null;
        }
        let text1 = match resolve_operand(&args[0], data) {
            Some(t) => t,
            None => {
                return JsonValue::Null;
            },
        };
        let version1 = match parse_version(text1.as_str()) {
            Some(v) => v,
            None => {
                return JsonValue::Null;
            },
        };
        let op = match args[1].as_str() {
            Some(s) => s,
            None => {
                return JsonValue::Null;
            },
        };
        let text2 = match resolve_operand(&args[2], data) {
            Some(t) => t,
            None => {
                return JsonValue::Null;
            },
        };
        let version2 = match parse_version(text2.as_str()) {
            Some(v) => v,
            None => {
                return JsonValue::Null;
            },
        };
        match apply_operator(op, &version1, &version2) {
            Some(b) => JsonValue::Bool(b),
            None => JsonValue::Null,
        }
    }
}


/// The operators come in complementary pairs: on any two versions `=` and
/// `!=` disagree, as do `<` and `>=`, and `>` and `<=`.
pub proof fn law_complementary_operators(a: VersionModel, b: VersionModel)
    ensures
        compare_with("="@, a, b) matches Some(x) && compare_with("!="@, a, b) == Some(!x),
        compare_with("<"@, a, b) matches Some(x) && compare_with(">="@, a, b) == Some(!x),
        compare_with(">"@, a, b) matches Some(x) && compare_with("<="@, a, b) == Some(!x),
{
    lemma_operator_texts();
}

/// Equal versions agree on major and minor version, and agreeing on major
/// and minor version implies agreeing on the major version.
pub proof fn law_equality_implies_compatibility(a: VersionModel, b: VersionModel)
    ensures
        compare_with("="@, a, b) == Some(true) ==> compare_with("~"@, a, b) == Some(true),
        compare_with("~"@, a, b) == Some(true) ==> compare_with("^"@, a, b) == Some(true),
        compare_with("^"@, a, a) == Some(true),
{
    lemma_operator_texts();
}

/// What `sem_ver` answers on two version texts that parse, with an
/// operator that compares their numbers: `~` is true exactly when the two
/// versions have the same major and the same minor number, `^` exactly when
/// they have the same major number, `=` exactly when they are the same
/// version and `!=` exactly when they are not; so `~`, `^`, `=` and `!=`
/// give the same answer whichever version comes first.
pub proof fn law_semver_operators_on_numbers(t1: Seq<char>, t2: Seq<char>, data: Json, a: VersionModel, b: VersionModel)
    requires
        semver_parse(t1) == Some(a),
        semver_parse(t2) == Some(b),
    ensures
        semver_result(seq![Json::Str(t1), Json::Str("~"@), Json::Str(t2)], data) == Json::Bool(a.0 == b.0 && a.1 == b.1),
        semver_result(seq![Json::Str(t1), Json::Str("^"@), Json::Str(t2)], data) == Json::Bool(a.0 == b.0),
        semver_result(seq![Json::Str(t1), Json::Str("="@), Json::Str(t2)], data) == Json::Bool(a == b),
        semver_result(seq![Json::Str(t1), Json::Str("!="@), Json::Str(t2)], data) == Json::Bool(a != b),
        semver_result(seq![Json::Str(t1), Json::Str("~"@), Json::Str(t2)], data) == semver_result(
            seq![Json::Str(t2), Json::Str("~"@), Json::Str(t1)],
            data,
        ),
        semver_result(seq![Json::Str(t1), Json::Str("^"@), Json::Str(t2)], data) == semver_result(
            seq![Json::Str(t2), Json::Str("^"@), Json::Str(t1)],
            data,
        ),
{
    lemma_operator_texts();
    reveal_strlit("~");
    reveal_strlit("^");
    reveal_strlit("=");
    reveal_strlit("!=");
    assert("!="@ != "="@ && "!="@ != "<"@ && "!="@ != ">"@) by {
        assert("!="@.len() == 2);
    }
    assert("~"@ != "!="@ && "~"@ != "<="@ && "~"@ != ">="@ && "^"@ != "!="@ && "^"@ != "<="@ && "^"@ != ">="@);
}

/// The eight operator texts are pairwise distinct.
proof fn lemma_operator_texts()
    ensures
        "="@.len() == 1 && "<"@.len() == 1 && ">"@.len() == 1 && "^"@.len() == 1 && "~"@.len() == 1,
        "!="@.len() == 2 && "<="@.len() == 2 && ">="@.len() == 2,
        "="@[0] == '=' && "<"@[0] == '<' && ">"@[0] == '>' && "^"@[0] == '^' && "~"@[0] == '~',
        "!="@[0] == '!' && "<="@[0] == '<' && ">="@[0] == '>',
        "<"@ != "="@ && ">"@ != "="@ && ">"@ != "<"@ && "^"@ != "="@ && "^"@ != "<"@,
        "^"@ != ">"@ && "~"@ != "="@ && "~"@ != "<"@ && "~"@ != ">"@ && "~"@ != "^"@,
        "!="@ != "<="@ && "!="@ != ">="@ && "<="@ != ">="@,
{
    reveal_strlit("=");
    reveal_strlit("!=");
    reveal_strlit("<");
    reveal_strlit("<=");
    reveal_strlit(">");
    reveal_strlit(">=");
    reveal_strlit("^");
    reveal_strlit("~");
    assert("<"@[0] != "="@[0]);
    assert(">"@[0] != "="@[0]);
    assert(">"@[0] != "<"@[0]);
    assert("^"@[0] != "="@[0]);
    assert("^"@[0] != "<"@[0]);
    assert("^"@[0] != ">"@[0]);
    assert("~"@[0] != "="@[0]);
    assert("~"@[0] != "<"@[0]);
    assert("~"@[0] != ">"@[0]);
    assert("~"@[0] != "^"@[0]);
    assert("!="@[0] != "<="@[0]);
    assert("!="@[0] != ">="@[0]);
    assert("<="@[0] != ">="@[0]);
}

} // verus!
