//! The data that extraction produces: targets and the variables their
//! recipes appear to need.

use vstd::prelude::*;
use vstd::string::StringExecFns;
use crate::text::chars_of;

verus! {

/// A variable that a target's recipe appears to depend on.
#[derive(Debug, Clone, PartialEq, Eq)]
pub struct RequiredVar {
    /// The variable's name.
    pub name: String,
    /// Suggested values, separated by `|`, where a comment documents them.
    pub hint: Option<String>,
}

/// What a `RequiredVar` stands for.
pub ghost struct RequiredVarView {
    pub name: Seq<char>,
    pub hint: Option<Seq<char>>,
}

/// One invocable entry point of a Makefile.
#[derive(Debug, Clone, PartialEq, Eq)]
pub struct Target {
    /// The name by which the target is invoked.
    pub name: String,
    /// A description taken from comments, if there is one.
    pub description: Option<String>,
    /// The file in which the target was found.
    pub file: String,
    /// The line of the declaration, counted from 1.
    pub line: usize,
    /// The variables the recipe asks for, sorted by name.
    pub required_vars: Vec<RequiredVar>,
}

/// What a `Target` stands for.
pub ghost struct TargetView {
    pub name: Seq<char>,
    pub description: Option<Seq<char>>,
    pub file: Seq<char>,
    pub line: nat,
    pub required_vars: Seq<RequiredVarView>,
}

/// The view of an optional string.
pub open spec fn text_of(o: Option<String>) -> Option<Seq<char>> {
    match o {
        Some(s) => Some(s@),
        None => None,
    }
}

/// The views of a sequence of variables, element by element.
pub open spec fn vars_view(v: Seq<RequiredVar>) -> Seq<RequiredVarView> {
    Seq::new(v.len(), |i: int| v[i]@)
}

/// The views of a sequence of targets, element by element.
pub open spec fn targets_view(v: Seq<Target>) -> Seq<TargetView> {
    Seq::new(v.len(), |i: int| v[i]@)
}

/// How a target reads in a listing: its name, then ` - ` and its
/// description where it has one.
pub open spec fn summary(t: TargetView) -> Seq<char> {
    match t.description {
        Some(d) => t.name + seq![' ', '-', ' '] + d,
        None => t.name,
    }
}

impl View for RequiredVar {
    type V = RequiredVarView;

    open spec fn view(&self) -> RequiredVarView {
        RequiredVarView { name: self.name@, hint: text_of(self.hint) }
    }
}

impl View for Target {
    type V = TargetView;

    open spec fn view(&self) -> TargetView {
        TargetView {
            name: self.name@,
            description: text_of(self.description),
            file: self.file@,
            line: self.line as nat,
            required_vars: vars_view(self.required_vars@),
        }
    }
}

/// A copy of an optional string.
pub fn copy_text(o: &Option<String>) -> (r: Option<String>)
    ensures
        text_of(r) == text_of(*o),
{
    match o {
        Some(s) => Some(s.clone()),
        None => None,
    }
}

impl RequiredVar {
    /// A copy of this variable.
    pub fn duplicate(&self) -> (r: RequiredVar)
        ensures
            r@ == self@,
    {
        RequiredVar { name: self.name.clone(), hint: copy_text(&self.hint) }
    }
}

/// A copy of a list of variables.
pub fn copy_vars(v: &Vec<RequiredVar>) -> (r: Vec<RequiredVar>)
    ensures
        vars_view(r@) == vars_view(v@),
{
    let mut r: Vec<RequiredVar> = Vec::new();
    let mut i: usize = 0;
    while i < v.len()
        invariant
            i <= v.len(),
            vars_view(r@) == vars_view(v@).take(i as int),
        decreases v.len() - i,
    {
        let ghost before = vars_view(r@);
        let item = v[i].duplicate();
        r.push(item);
        assert(vars_view(r@) == before.push(v@[i as int]@));
        i += 1;
    }
    assert(vars_view(v@).take(v.len() as int) == vars_view(v@));
    r
}

impl Target {
    /// A target that asks for no variables.
    pub fn new(name: String, description: Option<String>, file: String, line: usize) -> (t: Target)
        ensures
            t@ == (TargetView {
                name: name@,
                description: text_of(description),
                file: file@,
                line: line as nat,
                required_vars: Seq::empty(),
            }),
    {
        let t = Target { name, description, file, line, required_vars: Vec::new() };
        assert(vars_view(t.required_vars@) == Seq::<RequiredVarView>::empty());
        t
    }

    /// A target with the variables it asks for.
    pub fn with_required_vars(
        name: String,
        description: Option<String>,
        file: String,
        line: usize,
        required_vars: Vec<RequiredVar>,
    ) -> (t: Target)
        ensures
            t@ == (TargetView {
                name: name@,
                description: text_of(description),
                file: file@,
                line: line as nat,
                required_vars: vars_view(required_vars@),
            }),
    {
        Target { name, description, file, line, required_vars }
    }

    /// Whether the target asks for any variable.
    pub fn has_required_vars(&self) -> (r: bool)
        ensures
            r == (self@.required_vars.len() > 0),
    {
        self.required_vars.len() > 0
    }

    /// The text under which the target is offered for selection: its name.
    pub fn display_name(&self) -> (r: String)
        ensures
            r@ == self@.name,
    {
        self.name.clone()
    }

    /// Whether the target is private: its name begins with an underscore.
    pub fn is_private(&self) -> (r: bool)
        ensures
            r == (self@.name.len() > 0 && self@.name[0] == '_'),
    {
        let chars = chars_of(self.name.as_str());
        chars.len() > 0 && chars[0] == '_'
    }

    /// The target as one line of text: see `summary`.
    pub fn describe(&self) -> (r: String)
        ensures
            r@ == summary(self@),
    {
        let mut r = self.name.clone();
        match &self.description {
            Some(d) => {
                r.push(' ');
                r.push('-');
                r.push(' ');
                r.append(d.as_str());
                assert(r@ == self@.name + seq![' ', '-', ' '] + d@);
            },
            None => {},
        }
        r
    }

    /// A copy of this target.
    pub fn duplicate(&self) -> (r: Target)
        ensures
            r@ == self@,
    {
        Target {
            name: self.name.clone(),
            description: copy_text(&self.description),
            file: self.file.clone(),
            line: self.line,
            required_vars: copy_vars(&self.required_vars),
        }
    }
}

/// A copy of a list of targets.
pub fn copy_targets(v: &Vec<Target>) -> (r: Vec<Target>)
    ensures
        targets_view(r@) == targets_view(v@),
{
    let mut r: Vec<Target> = Vec::new();
    let mut i: usize = 0;
    while i < v.len()
        invariant
            i <= v.len(),
            targets_view(r@) == targets_view(v@).take(i as int),
        decreases v.len() - i,
    {
        let ghost before = targets_view(r@);
        let item = v[i].duplicate();
        r.push(item);
        assert(targets_view(r@) == before.push(v@[i as int]@));
        i += 1;
    }
    assert(targets_view(v@).take(v.len() as int) == targets_view(v@));
    r
}

} // verus!
