//! The keywords of a data schema and the constraints that they put on generated data.

use vstd::prelude::*;

use crate::json::{int_view, view_i64, view_str, view_u64, Json, JsonView};
use crate::pattern::{parse_pattern, pattern_shape};
use crate::text::same_text;

verus! {

/// A keyword that constrains a property of a schema.
#[derive(Clone, Copy, Debug, PartialEq, Eq, Hash, Structural)]
pub enum Keywords {
    MinLength,
    MaxLength,
    Minimum,
    Maximum,
    Constant,
    Pattern,
    DataFile,
}

/// How a keyword is written in a schema.
pub open spec fn keyword_text(k: Keywords) -> Seq<char> {
    match k {
        Keywords::MinLength => "minLength"@,
        Keywords::MaxLength => "maxLength"@,
        Keywords::Minimum => "minimum"@,
        Keywords::Maximum => "maximum"@,
        Keywords::Constant => "constant"@,
        Keywords::Pattern => "pattern"@,
        Keywords::DataFile => "dataFile"@,
    }
}

/// The keyword that a name stands for, if it is one.
pub open spec fn keyword_of(name: Seq<char>) -> Option<Keywords> {
    if name == "minLength"@ {
        Some(Keywords::MinLength)
    } else if name == "maxLength"@ {
        Some(Keywords::MaxLength)
    } else if name == "minimum"@ {
        Some(Keywords::Minimum)
    } else if name == "maximum"@ {
        Some(Keywords::Maximum)
    } else if name == "constant"@ {
        Some(Keywords::Constant)
    } else if name == "pattern"@ {
        Some(Keywords::Pattern)
    } else if name == "dataFile"@ {
        Some(Keywords::DataFile)
    } else {
        None
    }
}

/// Every keyword is recognised by the name it is written with.
pub proof fn lemma_keyword_text_inverse(k: Keywords)
    ensures
        keyword_of(keyword_text(k)) == Some(k),
{
    reveal_strlit("minLength");
    reveal_strlit("maxLength");
    reveal_strlit("minimum");
    reveal_strlit("maximum");
    reveal_strlit("constant");
    reveal_strlit("pattern");
    reveal_strlit("dataFile");
    assert("minLength"@.len() == 9 && "maxLength"@.len() == 9);
    assert("minimum"@.len() == 7 && "maximum"@.len() == 7 && "pattern"@.len() == 7);
    assert("constant"@.len() == 8 && "dataFile"@.len() == 8);
    assert("minLength"@[1] != "maxLength"@[1]);
    assert("minimum"@[1] != "maximum"@[1]);
    assert("minimum"@[0] != "pattern"@[0]);
    assert("maximum"@[0] != "pattern"@[0]);
    assert("constant"@[0] != "dataFile"@[0]);
}

/// A name is recognised as `k` only where it is the text of `k`.
pub proof fn lemma_keyword_of_text(name: Seq<char>)
    ensures
        keyword_of(name) matches Some(k) ==> keyword_text(k) == name,
{
}

impl Keywords {
    pub fn as_str(&self) -> (r: &'static str)
        ensures
            r@ == keyword_text(*self),
    {
        match self {
            Keywords::MinLength => "minLength",
            Keywords::MaxLength => "maxLength",
            Keywords::Minimum => "minimum",
            Keywords::Maximum => "maximum",
            Keywords::Constant => "constant",
            Keywords::Pattern => "pattern",
            Keywords::DataFile => "dataFile",
        }
    }

    pub fn try_from(value: &String) -> (r: Result<Keywords, ()>)
        ensures
            match r {
                Ok(k) => keyword_of(value@) == Some(k),
                Err(_) => keyword_of(value@) is None,
            },
    {
        let name = value.as_str();
        if same_text(name, "minLength") {
            Ok(Keywords::MinLength)
        } else if same_text(name, "maxLength") {
            Ok(Keywords::MaxLength)
        } else if same_text(name, "minimum") {
            Ok(Keywords::Minimum)
        } else if same_text(name, "maximum") {
            Ok(Keywords::Maximum)
        } else if same_text(name, "constant") {
            Ok(Keywords::Constant)
        } else if same_text(name, "pattern") {
            Ok(Keywords::Pattern)
        } else if same_text(name, "dataFile") {
            Ok(Keywords::DataFile)
        } else {
            Err(())
        }
    }
}

/// The value that a keyword has in a schema.
#[derive(Debug, PartialEq)]
pub enum Constraints {
    MinLength(i64),
    MaxLength(i64),
    Minimum(i64),
    Maximum(i64),
    ConstantInt(i64),
    ConstantStr(String),
    ConstantValue(Json),
    /// A regular expression.
    Pattern(String),
    DataFile(u64),
}

/// What a constraint says.
pub enum ConstraintView {
    MinLength(i64),
    MaxLength(i64),
    Minimum(i64),
    Maximum(i64),
    ConstantInt(i64),
    ConstantStr(Seq<char>),
    ConstantValue(JsonView),
    Pattern(Seq<char>),
    DataFile(u64),
}

impl View for Constraints {
    type V = ConstraintView;

    open spec fn view(&self) -> ConstraintView {
        match self {
            Constraints::MinLength(n) => ConstraintView::MinLength(*n),
            Constraints::MaxLength(n) => ConstraintView::MaxLength(*n),
            Constraints::Minimum(n) => ConstraintView::Minimum(*n),
            Constraints::Maximum(n) => ConstraintView::Maximum(*n),
            Constraints::ConstantInt(n) => ConstraintView::ConstantInt(*n),
            Constraints::ConstantStr(s) => ConstraintView::ConstantStr(s@),
            Constraints::ConstantValue(v) => ConstraintView::ConstantValue(v@),
            Constraints::Pattern(p) => ConstraintView::Pattern(p@),
            Constraints::DataFile(n) => ConstraintView::DataFile(*n),
        }
    }
}

/// The number of a limit or of an integer constant.
pub open spec fn constraint_i64(c: ConstraintView) -> Option<i64> {
    match c {
        ConstraintView::MinLength(n) => Some(n),
        ConstraintView::MaxLength(n) => Some(n),
        ConstraintView::Minimum(n) => Some(n),
        ConstraintView::Maximum(n) => Some(n),
        ConstraintView::ConstantInt(n) => Some(n),
        _ => None,
    }
}

impl Clone for Constraints {
    fn clone(&self) -> (r: Constraints)
        ensures
            r@ == self@,
    {
        match self {
            Constraints::MinLength(x) => Constraints::MinLength(*x),
            Constraints::MaxLength(x) => Constraints::MaxLength(*x),
            Constraints::Minimum(x) => Constraints::Minimum(*x),
            Constraints::Maximum(x) => Constraints::Maximum(*x),
            Constraints::ConstantInt(x) => Constraints::ConstantInt(*x),
            Constraints::ConstantStr(s) => Constraints::ConstantStr(s.clone()),
            Constraints::ConstantValue(v) => Constraints::ConstantValue(v.clone()),
            Constraints::Pattern(p) => Constraints::Pattern(p.clone()),
            Constraints::DataFile(n) => Constraints::DataFile(*n),
        }
    }
}

impl Constraints {
    pub fn as_i64(&self) -> (r: Option<i64>)
        ensures
            r == constraint_i64(self@),
    {
        match self {
            Constraints::MinLength(x) => Some(*x),
            Constraints::MaxLength(x) => Some(*x),
            Constraints::Minimum(x) => Some(*x),
            Constraints::Maximum(x) => Some(*x),
            Constraints::ConstantInt(x) => Some(*x),
            _ => None,
        }
    }

    pub fn as_str(&self) -> (r: Option<&str>)
        ensures
            match r {
                Some(s) => self@ == ConstraintView::ConstantStr(s@),
                None => !(self@ is ConstantStr),
            },
    {
        match self {
            Constraints::ConstantStr(x) => Some(x.as_str()),
            _ => None,
        }
    }

    pub fn as_pattern(&self) -> (r: Option<&String>)
        ensures
            match r {
                Some(pattern) => self@ == ConstraintView::Pattern(pattern@),
                None => !(self@ is Pattern),
            },
    {
        match self {
            Constraints::Pattern(pattern) => Some(pattern),
            _ => None,
        }
    }

    pub fn as_serde_value(&self) -> (r: Option<&Json>)
        ensures
            match r {
                Some(v) => self@ == ConstraintView::ConstantValue(v@),
                None => !(self@ is ConstantValue),
            },
    {
        match self {
            Constraints::ConstantValue(x) => Some(x),
            _ => None,
        }
    }

    /// The constraint as it is written in a schema.
    pub fn to_json(&self) -> (r: Json)
        ensures
            r@ == constraint_value(self@),
    {
        match self {
            Constraints::MinLength(x) => Json::from_i64(*x),
            Constraints::MaxLength(x) => Json::from_i64(*x),
            Constraints::Minimum(x) => Json::from_i64(*x),
            Constraints::Maximum(x) => Json::from_i64(*x),
            Constraints::ConstantInt(x) => Json::from_i64(*x),
            Constraints::ConstantStr(s) => Json::String(s.clone()),
            Constraints::ConstantValue(v) => v.clone(),
            Constraints::Pattern(p) => Json::String(p.clone()),
            Constraints::DataFile(n) => Json::Number(crate::json::Number::PosInt(*n)),
        }
    }
}

/// How a constraint is written in a schema.
pub open spec fn constraint_value(c: ConstraintView) -> JsonView {
    match c {
        ConstraintView::MinLength(n) => int_view(n),
        ConstraintView::MaxLength(n) => int_view(n),
        ConstraintView::Minimum(n) => int_view(n),
        ConstraintView::Maximum(n) => int_view(n),
        ConstraintView::ConstantInt(n) => int_view(n),
        ConstraintView::ConstantStr(s) => JsonView::String(s),
        ConstraintView::ConstantValue(v) => v,
        ConstraintView::Pattern(p) => JsonView::String(p),
        ConstraintView::DataFile(n) => JsonView::Number(crate::json::NumberView::PosInt(n)),
    }
}

/// The constraint that keyword `k` expresses with the value `v`; none where `v` does not suit `k`.
pub open spec fn constraint_of(k: Keywords, v: JsonView) -> Option<ConstraintView> {
    match k {
        Keywords::MinLength => match view_i64(v) {
            Some(n) => Some(ConstraintView::MinLength(n)),
            None => None,
        },
        Keywords::MaxLength => match view_i64(v) {
            Some(n) => Some(ConstraintView::MaxLength(n)),
            None => None,
        },
        Keywords::Minimum => match view_i64(v) {
            Some(n) => Some(ConstraintView::Minimum(n)),
            None => None,
        },
        Keywords::Maximum => match view_i64(v) {
            Some(n) => Some(ConstraintView::Maximum(n)),
            None => None,
        },
        Keywords::Constant => if view_i64(v) is Some {
            Some(ConstraintView::ConstantInt(view_i64(v)->0))
        } else if v is String {
            Some(ConstraintView::ConstantStr(v->String_0))
        } else {
            Some(ConstraintView::ConstantValue(v))
        },
        Keywords::Pattern => match view_str(v) {
            Some(p) => if pattern_shape(p) is Some {
                Some(ConstraintView::Pattern(p))
            } else {
                None
            },
            None => None,
        },
        Keywords::DataFile => match view_u64(v) {
            Some(n) => Some(ConstraintView::DataFile(n)),
            None => None,
        },
    }
}

/// Reads the value of keyword `k`.
pub fn parse_constraint(k: Keywords, v: &Json) -> (r: Option<Constraints>)
    ensures
        match r {
            Some(c) => constraint_of(k, v@) == Some(c@),
            None => constraint_of(k, v@) is None,
        },
{
    match k {
        Keywords::Minimum => match v.as_i64() {
            Some(n) => Some(Constraints::Minimum(n)),
            None => None,
        },
        Keywords::Maximum => match v.as_i64() {
            Some(n) => Some(Constraints::Maximum(n)),
            None => None,
        },
        Keywords::MinLength => match v.as_i64() {
            Some(n) => Some(Constraints::MinLength(n)),
            None => None,
        },
        Keywords::MaxLength => match v.as_i64() {
            Some(n) => Some(Constraints::MaxLength(n)),
            None => None,
        },
        Keywords::Constant => {
            if let Some(n) = v.as_i64() {
                Some(Constraints::ConstantInt(n))
            } else if let Some(s) = v.as_str() {
                Some(Constraints::ConstantStr(s.to_owned()))
            } else {
                Some(Constraints::ConstantValue(v.clone()))
            }
        },
        Keywords::Pattern => match v.as_str() {
            Some(p) => match parse_pattern(p) {
                Some(_) => Some(Constraints::Pattern(p.to_owned())),
                None => None,
            },
            None => None,
        },
        Keywords::DataFile => match v.as_u64() {
            Some(n) => Some(Constraints::DataFile(n)),
            None => None,
        },
    }
}

/// The constraints of one property, by keyword.
#[derive(Debug, PartialEq)]
pub struct ConstraintSet {
    min_length: Option<Constraints>,
    max_length: Option<Constraints>,
    minimum: Option<Constraints>,
    maximum: Option<Constraints>,
    constant: Option<Constraints>,
    pattern: Option<Constraints>,
    data_file: Option<Constraints>,
}

impl View for ConstraintSet {
    type V = Map<Keywords, ConstraintView>;

    closed spec fn view(&self) -> Map<Keywords, ConstraintView> {
        Map::new(|k: Keywords| self.slot(k) is Some, |k: Keywords| self.slot(k)->0@)
    }
}

fn clone_slot(slot: &Option<Constraints>) -> (r: Option<Constraints>)
    ensures
        r is Some == slot is Some,
        r is Some ==> r->0@ == slot->0@,
{
    match slot {
        Some(c) => Some(c.clone()),
        None => None,
    }
}

impl Clone for ConstraintSet {
    fn clone(&self) -> (r: ConstraintSet)
        ensures
            r@ == self@,
    {
        let r = ConstraintSet {
            min_length: clone_slot(&self.min_length),
            max_length: clone_slot(&self.max_length),
            minimum: clone_slot(&self.minimum),
            maximum: clone_slot(&self.maximum),
            constant: clone_slot(&self.constant),
            pattern: clone_slot(&self.pattern),
            data_file: clone_slot(&self.data_file),
        };
        assert(r@ =~= self@);
        r
    }
}

impl ConstraintSet {
    spec fn slot(&self, k: Keywords) -> Option<Constraints> {
        match k {
            Keywords::MinLength => self.min_length,
            Keywords::MaxLength => self.max_length,
            Keywords::Minimum => self.minimum,
            Keywords::Maximum => self.maximum,
            Keywords::Constant => self.constant,
            Keywords::Pattern => self.pattern,
            Keywords::DataFile => self.data_file,
        }
    }

    /// An empty set.
    pub fn new() -> (r: ConstraintSet)
        ensures
            r@ == Map::<Keywords, ConstraintView>::empty(),
    {
        let r = ConstraintSet {
            min_length: None,
            max_length: None,
            minimum: None,
            maximum: None,
            constant: None,
            pattern: None,
            data_file: None,
        };
        assert(r@ =~= Map::<Keywords, ConstraintView>::empty());
        r
    }

    /// Puts a constraint under a keyword, in place of an earlier one.
    pub fn insert(&mut self, keyword: Keywords, constraint: Constraints)
        ensures
            final(self)@ == old(self)@.insert(keyword, constraint@),
    {
        match keyword {
            Keywords::MinLength => self.min_length = Some(constraint),
            Keywords::MaxLength => self.max_length = Some(constraint),
            Keywords::Minimum => self.minimum = Some(constraint),
            Keywords::Maximum => self.maximum = Some(constraint),
            Keywords::Constant => self.constant = Some(constraint),
            Keywords::Pattern => self.pattern = Some(constraint),
            Keywords::DataFile => self.data_file = Some(constraint),
        }
        assert(self@ =~= old(self)@.insert(keyword, constraint@));
    }

    /// The constraint under a keyword.
    pub fn get(&self, keyword: &Keywords) -> (r: Option<&Constraints>)
        ensures
            match r {
                Some(c) => self@.contains_key(*keyword) && self@[*keyword] == c@,
                None => !self@.contains_key(*keyword),
            },
    {
        match keyword {
            Keywords::MinLength => self.min_length.as_ref(),
            Keywords::MaxLength => self.max_length.as_ref(),
            Keywords::Minimum => self.minimum.as_ref(),
            Keywords::Maximum => self.maximum.as_ref(),
            Keywords::Constant => self.constant.as_ref(),
            Keywords::Pattern => self.pattern.as_ref(),
            Keywords::DataFile => self.data_file.as_ref(),
        }
    }
}

} // verus!
