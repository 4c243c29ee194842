//! The built-in module registry: named modules, each holding variables,
//! mixins and functions, every stored entry carrying an explicit visibility
//! attribute that is checked at lookup time. Source positions travel
//! through lookups as opaque `codemap` spans and come back inside errors.
use crate::number::Number;
use codemap::Span;
use vstd::prelude::*;

verus! {

broadcast use vstd::seq::group_seq_axioms, vstd::std_specs::vec::group_vec_axioms;

#[verifier::external_type_specification]
#[verifier::external_body]
pub struct ExSpan(Span);

/// An identifier: a variable, function, mixin or namespace name.
pub struct Identifier {
    pub text: String,
}

/// A name marks its member private when it begins with a hyphen.
pub open spec fn is_private_name(s: Seq<char>) -> bool {
    s.len() > 0 && s[0] == '-'
}

impl Identifier {
    pub fn from_str(s: &str) -> (id: Identifier)
        ensures
            id.text@ == s@,
    {
        Identifier { text: s.to_owned() }
    }

    pub fn duplicate(&self) -> (id: Identifier)
        ensures
            id.text@ == self.text@,
    {
        Identifier { text: self.text.clone() }
    }

    /// Whether this name marks a private member.
    pub fn is_private(&self) -> (r: bool)
        ensures
            r == is_private_name(self.text@),
    {
        let s = self.text.as_str();
        if s.unicode_len() == 0 {
            false
        } else {
            s.get_char(0) == '-'
        }
    }
}

/// An identifier together with the source span it was written at.
pub struct SpannedIdent {
    pub node: Identifier,
    pub span: Span,
}

/// How a string value is quoted.
#[derive(Clone, Copy, PartialEq, Eq, Structural)]
pub enum QuoteKind {
    Quoted,
    Unquoted,
}

/// A handle to a built-in function's implementation; the interpreter owns
/// the actual code.
#[derive(Clone, Copy)]
pub struct Builtin {
    pub id: u64,
}

impl Builtin {
    pub fn new(id: u64) -> (b: Builtin)
        ensures
            b.id == id,
    {
        Builtin { id }
    }
}

/// A callable function value: a built-in together with its name.
pub enum SassFunction {
    Builtin(Builtin, Identifier),
}

/// A handle to a mixin body; the evaluator owns the actual statements.
#[derive(Clone, Copy)]
pub struct Mixin {
    pub id: u64,
}

/// A value as the module system stores it.
pub enum Value {
    Null,
    Text(String, QuoteKind),
    Dimension(Number),
    FunctionRef(SassFunction),
}

/// The mathematical shape of a stored value.
#[verifier::ext_equal]
pub enum ValueV {
    Null,
    Text(Seq<char>, QuoteKind),
    Dimension(int, int),
    FunctionRef(int, Seq<char>),
}

pub open spec fn fn_view(f: SassFunction) -> (int, Seq<char>) {
    match f {
        SassFunction::Builtin(b, id) => (b.id as int, id.text@),
    }
}

pub open spec fn value_view(v: Value) -> ValueV {
    match v {
        Value::Null => ValueV::Null,
        Value::Text(s, q) => ValueV::Text(s@, q),
        Value::Dimension(n) => ValueV::Dimension(n.num(), n.den()),
        Value::FunctionRef(f) => ValueV::FunctionRef(fn_view(f).0, fn_view(f).1),
    }
}

/// A copy of a function value with the same mathematical shape.
pub fn clone_function(f: &SassFunction) -> (r: SassFunction)
    ensures
        fn_view(r) == fn_view(*f),
{
    match f {
        SassFunction::Builtin(b, id) => SassFunction::Builtin(*b, id.duplicate()),
    }
}

/// A copy of a value with the same mathematical shape.
pub fn clone_value(v: &Value) -> (r: Value)
    ensures
        value_view(r) == value_view(*v),
{
    match v {
        Value::Null => Value::Null,
        Value::Text(s, q) => Value::Text(s.clone(), *q),
        Value::Dimension(n) => Value::Dimension(n.duplicate()),
        Value::FunctionRef(f) => Value::FunctionRef(clone_function(f)),
    }
}

/// A stored variable: its name, its explicit visibility, its value.
pub struct VarEntry {
    pub name: Identifier,
    pub private: bool,
    pub value: Value,
}

/// A stored function: its name, its explicit visibility, the function.
pub struct FnEntry {
    pub name: Identifier,
    pub private: bool,
    pub func: SassFunction,
}

/// A stored mixin: its name, its explicit visibility, the mixin handle.
pub struct MixinEntry {
    pub name: Identifier,
    pub private: bool,
    pub mixin: Mixin,
}

pub open spec fn vars_view(s: Seq<VarEntry>) -> Seq<(Seq<char>, (bool, ValueV))> {
    Seq::new(s.len(), |i: int| (s[i].name.text@, (s[i].private, value_view(s[i].value))))
}

pub open spec fn fns_view(s: Seq<FnEntry>) -> Seq<(Seq<char>, (bool, (int, Seq<char>)))> {
    Seq::new(s.len(), |i: int| (s[i].name.text@, (s[i].private, fn_view(s[i].func))))
}

pub open spec fn mixins_view(s: Seq<MixinEntry>) -> Seq<(Seq<char>, (bool, int))> {
    Seq::new(s.len(), |i: int| (s[i].name.text@, (s[i].private, s[i].mixin.id as int)))
}

/// First entry with the given name, if any.
pub open spec fn find_named<V>(s: Seq<(Seq<char>, V)>, n: Seq<char>) -> Option<(Seq<char>, V)>
    decreases s.len(),
{
    if s.len() == 0 {
        Option::None
    } else if s[0].0 == n {
        Option::Some(s[0])
    } else {
        find_named(s.drop_first(), n)
    }
}

/// Replace the first entry with the same name, or append at the end.
pub open spec fn upsert_named<V>(s: Seq<(Seq<char>, V)>, e: (Seq<char>, V)) -> Seq<
    (Seq<char>, V),
>
    decreases s.len(),
{
    if s.len() == 0 {
        seq![e]
    } else if s[0].0 == e.0 {
        seq![e] + s.drop_first()
    } else {
        seq![s[0]] + upsert_named(s.drop_first(), e)
    }
}

/// When no entry carries the name, the search fails.
pub proof fn lemma_find_named_none<V>(s: Seq<(Seq<char>, V)>, n: Seq<char>)
    requires
        forall|t: int| 0 <= t < s.len() ==> s[t].0 != n,
    ensures
        find_named(s, n) is None,
    decreases s.len(),
{
    if s.len() > 0 {
        lemma_find_named_none(s.drop_first(), n);
    }
}

/// The search returns the first entry carrying the name.
pub proof fn lemma_find_named_at<V>(s: Seq<(Seq<char>, V)>, n: Seq<char>, i: int)
    requires
        0 <= i < s.len(),
        s[i].0 == n,
        forall|t: int| 0 <= t < i ==> s[t].0 != n,
    ensures
        find_named(s, n) == Option::Some(s[i]),
    decreases i,
{
    if i > 0 {
        lemma_find_named_at(s.drop_first(), n, i - 1);
    }
}

/// When no entry carries the name, upserting appends at the end.
pub proof fn lemma_upsert_named_push<V>(s: Seq<(Seq<char>, V)>, e: (Seq<char>, V))
    requires
        forall|t: int| 0 <= t < s.len() ==> s[t].0 != e.0,
    ensures
        upsert_named(s, e) == s.push(e),
    decreases s.len(),
{
    if s.len() == 0 {
        assert(upsert_named(s, e) =~= s.push(e));
    } else {
        lemma_upsert_named_push(s.drop_first(), e);
        assert(seq![s[0]] + s.drop_first().push(e) =~= s.push(e));
    }
}

/// Upserting replaces the first entry carrying the same name in place.
pub proof fn lemma_upsert_named_at<V>(s: Seq<(Seq<char>, V)>, e: (Seq<char>, V), i: int)
    requires
        0 <= i < s.len(),
        s[i].0 == e.0,
        forall|t: int| 0 <= t < i ==> s[t].0 != e.0,
    ensures
        upsert_named(s, e) == s.update(i, e),
    decreases i,
{
    if i == 0 {
        assert(seq![e] + s.drop_first() =~= s.update(0, e));
    } else {
        lemma_upsert_named_at(s.drop_first(), e, i - 1);
        assert(s.drop_first().update(i - 1, e) =~= s.update(i, e).drop_first());
        assert(seq![s[0]] + s.update(i, e).drop_first() =~= s.update(i, e));
    }
}

/// One module's scope: its variables, mixins and functions, each entry with
/// its explicit visibility.
pub struct Scope {
    pub vars: Vec<VarEntry>,
    pub mixins: Vec<MixinEntry>,
    pub functions: Vec<FnEntry>,
}

impl Scope {
    pub fn new() -> (s: Scope)
        ensures
            s.vars@ == Seq::<VarEntry>::empty(),
            s.mixins@ == Seq::<MixinEntry>::empty(),
            s.functions@ == Seq::<FnEntry>::empty(),
    {
        Scope { vars: Vec::new(), mixins: Vec::new(), functions: Vec::new() }
    }
}

impl Default for Scope {
    fn default() -> (s: Scope)
        ensures
            s.vars@.len() == 0,
            s.mixins@.len() == 0,
            s.functions@.len() == 0,
    {
        Scope::new()
    }
}

/// The distinct error kinds the module system reports, each carrying the
/// source span of the offending name.
pub enum SassError {
    UndefinedVariable(Span),
    PrivateMember(Span),
    NoSuchModule(Identifier, Span),
}

impl SassError {
    /// The human-readable message for this error.
    pub fn message(&self) -> (r: String)
        ensures
            match self {
                SassError::UndefinedVariable(_) => r@ == "Undefined variable."@,
                SassError::PrivateMember(_) => r@
                    == "Private members can't be accessed from outside their modules."@,
                SassError::NoSuchModule(n, _) => r@ == "There is no module with the namespace \""@
                    + n.text@ + "\"."@,
            },
    {
        match self {
            SassError::UndefinedVariable(_) => String::from_str("Undefined variable."),
            SassError::PrivateMember(_) => String::from_str(
                "Private members can't be accessed from outside their modules.",
            ),
            SassError::NoSuchModule(n, _) => {
                let mut m = String::from_str("There is no module with the namespace \"");
                m.append(n.text.as_str());
                m.append("\".");
                m
            },
        }
    }
}

/// An ordered map of values, as the introspection helpers hand it out.
pub struct SassMap(pub Vec<(Value, Value)>);

pub open spec fn sass_map_view(m: SassMap) -> Seq<(ValueV, ValueV)> {
    Seq::new(m.0@.len(), |i: int| (value_view(m.0@[i].0), value_view(m.0@[i].1)))
}

impl SassMap {
    pub fn new_with(elems: Vec<(Value, Value)>) -> (m: SassMap)
        ensures
            m.0@ == elems@,
    {
        SassMap(elems)
    }
}

/// The introspection map of the public functions: each non-private entry,
/// in stored order, becomes a pair of the quoted name and a function
/// reference.
pub open spec fn functions_map(s: Seq<(Seq<char>, (bool, (int, Seq<char>)))>) -> Seq<
    (ValueV, ValueV),
>
    decreases s.len(),
{
    if s.len() == 0 {
        Seq::empty()
    } else {
        (if s[0].1.0 {
            Seq::empty()
        } else {
            seq![
                (
                    ValueV::Text(s[0].0, QuoteKind::Quoted),
                    ValueV::FunctionRef(s[0].1.1.0, s[0].1.1.1),
                ),
            ]
        }) + functions_map(s.drop_first())
    }
}

/// The introspection map of the public variables: each non-private entry,
/// in stored order, becomes a pair of the quoted name and the value.
pub open spec fn variables_map(s: Seq<(Seq<char>, (bool, ValueV))>) -> Seq<(ValueV, ValueV)>
    decreases s.len(),
{
    if s.len() == 0 {
        Seq::empty()
    } else {
        (if s[0].1.0 {
            Seq::empty()
        } else {
            seq![(ValueV::Text(s[0].0, QuoteKind::Quoted), s[0].1.1)]
        }) + variables_map(s.drop_first())
    }
}

proof fn lemma_functions_map_push(
    s: Seq<(Seq<char>, (bool, (int, Seq<char>)))>,
    e: (Seq<char>, (bool, (int, Seq<char>))),
)
    ensures
        functions_map(s.push(e)) == functions_map(s) + functions_map(seq![e]),
    decreases s.len(),
{
    if s.len() == 0 {
        assert(s.push(e) =~= seq![e]);
        assert(functions_map(s) + functions_map(seq![e]) =~= functions_map(seq![e]));
    } else {
        assert(s.push(e).drop_first() =~= s.drop_first().push(e));
        lemma_functions_map_push(s.drop_first(), e);
        assert(functions_map(s.push(e)) =~= functions_map(s) + functions_map(seq![e]));
    }
}

proof fn lemma_variables_map_push(
    s: Seq<(Seq<char>, (bool, ValueV))>,
    e: (Seq<char>, (bool, ValueV)),
)
    ensures
        variables_map(s.push(e)) == variables_map(s) + variables_map(seq![e]),
    decreases s.len(),
{
    if s.len() == 0 {
        assert(s.push(e) =~= seq![e]);
        assert(variables_map(s) + variables_map(seq![e]) =~= variables_map(seq![e]));
    } else {
        assert(s.push(e).drop_first() =~= s.drop_first().push(e));
        lemma_variables_map_push(s.drop_first(), e);
        assert(variables_map(s.push(e)) =~= variables_map(s) + variables_map(seq![e]));
    }
}

/// One named module.
pub struct Module(pub Scope);

/// The mathematical shape of a module.
#[verifier::ext_equal]
pub struct ModuleV {
    pub vars: Seq<(Seq<char>, (bool, ValueV))>,
    pub mixins: Seq<(Seq<char>, (bool, int))>,
    pub functions: Seq<(Seq<char>, (bool, (int, Seq<char>)))>,
}

pub open spec fn module_view(m: Module) -> ModuleV {
    ModuleV {
        vars: vars_view(m.0.vars@),
        mixins: mixins_view(m.0.mixins@),
        functions: fns_view(m.0.functions@),
    }
}

impl Module {
    pub fn new_from_scope(scope: Scope) -> (m: Module)
        ensures
            module_view(m) == (ModuleV {
                vars: vars_view(scope.vars@),
                mixins: mixins_view(scope.mixins@),
                functions: fns_view(scope.functions@),
            }),
    {
        Module(scope)
    }

    /// Look a variable up: a private entry is refused, a missing one is
    /// undefined, otherwise the stored value is handed back.
    #[verifier::loop_isolation(false)]
    pub fn get_var(&self, name: SpannedIdent) -> (r: Result<&Value, SassError>)
        ensures
            match find_named(module_view(*self).vars, name.node.text@) {
                Option::Some(e) => if e.1.0 {
                    r matches Err(SassError::PrivateMember(sp)) && sp == name.span
                } else {
                    r matches Ok(v) && value_view(*v) == e.1.1
                },
                Option::None => r matches Err(SassError::UndefinedVariable(sp)) && sp
                    == name.span,
            },
    {
        let ghost vs = module_view(*self).vars;
        let n = self.0.vars.len();
        let mut i: usize = 0;
        while i < n
            invariant
                0 <= i <= n,
                n == self.0.vars@.len(),
                vs == vars_view(self.0.vars@),
                forall|t: int| 0 <= t < i ==> vs[t].0 != name.node.text@,
            decreases n - i,
        {
            if self.0.vars[i].name.text == name.node.text {
                proof {
                    lemma_find_named_at(vs, name.node.text@, i as int);
                }
                if self.0.vars[i].private {
                    return Err(SassError::PrivateMember(name.span));
                }
                return Ok(&self.0.vars[i].value);
            }
            i += 1;
        }
        proof {
            lemma_find_named_none(vs, name.node.text@);
        }
        Err(SassError::UndefinedVariable(name.span))
    }

    /// Store a built-in variable under its name; a leading hyphen in the
    /// name sets the entry's visibility attribute to private.
    #[verifier::loop_isolation(false)]
    pub fn insert_builtin_var(&mut self, name: &str, value: Value)
        ensures
            module_view(*final(self)).vars == upsert_named(
                module_view(*old(self)).vars,
                (name@, (is_private_name(name@), value_view(value))),
            ),
            module_view(*final(self)).mixins == module_view(*old(self)).mixins,
            module_view(*final(self)).functions == module_view(*old(self)).functions,
    {
        let ident = Identifier::from_str(name);
        let private = ident.is_private();
        let entry = VarEntry { name: ident, private, value };
        let ghost vs = module_view(*old(self)).vars;
        let ghost e = (name@, (is_private_name(name@), value_view(entry.value)));
        let n = self.0.vars.len();
        let mut i: usize = 0;
        while i < n
            invariant
                0 <= i <= n,
                n == self.0.vars@.len(),
                vs == vars_view(self.0.vars@),
                *self == *old(self),
                forall|t: int| 0 <= t < i ==> vs[t].0 != name@,
            decreases n - i,
        {
            if self.0.vars[i].name.text == entry.name.text {
                proof {
                    lemma_upsert_named_at(vs, e, i as int);
                }
                self.0.vars.remove(i);
                self.0.vars.insert(i, entry);
                proof {
                    assert(vars_view(self.0.vars@) =~= vs.update(i as int, e));
                }
                return ;
            }
            i += 1;
        }
        proof {
            lemma_upsert_named_push(vs, e);
        }
        self.0.vars.push(entry);
        proof {
            assert(vars_view(self.0.vars@) =~= vs.push(e));
        }
    }

    /// Store a built-in function under its name; a leading hyphen in the
    /// name sets the entry's visibility attribute to private.
    #[verifier::loop_isolation(false)]
    pub fn insert_builtin(&mut self, name: &str, function: Builtin)
        ensures
            module_view(*final(self)).functions == upsert_named(
                module_view(*old(self)).functions,
                (name@, (is_private_name(name@), (function.id as int, name@))),
            ),
            module_view(*final(self)).vars == module_view(*old(self)).vars,
            module_view(*final(self)).mixins == module_view(*old(self)).mixins,
    {
        let ident = Identifier::from_str(name);
        let private = ident.is_private();
        let fname = ident.duplicate();
        let entry = FnEntry {
            name: ident,
            private,
            func: SassFunction::Builtin(function, fname),
        };
        let ghost fs = module_view(*old(self)).functions;
        let ghost e = (name@, (is_private_name(name@), (function.id as int, name@)));
        let n = self.0.functions.len();
        let mut i: usize = 0;
        while i < n
            invariant
                0 <= i <= n,
                n == self.0.functions@.len(),
                fs == fns_view(self.0.functions@),
                *self == *old(self),
                forall|t: int| 0 <= t < i ==> fs[t].0 != name@,
            decreases n - i,
        {
            if self.0.functions[i].name.text == entry.name.text {
                proof {
                    lemma_upsert_named_at(fs, e, i as int);
                }
                self.0.functions.remove(i);
                self.0.functions.insert(i, entry);
                proof {
                    assert(fns_view(self.0.functions@) =~= fs.update(i as int, e));
                }
                return ;
            }
            i += 1;
        }
        proof {
            lemma_upsert_named_push(fs, e);
        }
        self.0.functions.push(entry);
        proof {
            assert(fns_view(self.0.functions@) =~= fs.push(e));
        }
    }

    /// Look a function up: a private entry is refused; otherwise the
    /// function is cloned out, or nothing when the name is not bound.
    #[verifier::loop_isolation(false)]
    pub fn get_fn(&self, name: SpannedIdent) -> (r: Result<Option<SassFunction>, SassError>)
        ensures
            match find_named(module_view(*self).functions, name.node.text@) {
                Option::Some(e) => if e.1.0 {
                    r matches Err(SassError::PrivateMember(sp)) && sp == name.span
                } else {
                    r matches Ok(Option::Some(f)) && fn_view(f) == e.1.1
                },
                Option::None => r matches Ok(o) && o is None,
            },
    {
        let ghost fs = module_view(*self).functions;
        let n = self.0.functions.len();
        let mut i: usize = 0;
        while i < n
            invariant
                0 <= i <= n,
                n == self.0.functions@.len(),
                fs == fns_view(self.0.functions@),
                forall|t: int| 0 <= t < i ==> fs[t].0 != name.node.text@,
            decreases n - i,
        {
            if self.0.functions[i].name.text == name.node.text {
                proof {
                    lemma_find_named_at(fs, name.node.text@, i as int);
                }
                if self.0.functions[i].private {
                    return Err(SassError::PrivateMember(name.span));
                }
                return Ok(Some(clone_function(&self.0.functions[i].func)));
            }
            i += 1;
        }
        proof {
            lemma_find_named_none(fs, name.node.text@);
        }
        Ok(None)
    }

    /// Whether a public variable of this name exists.
    #[verifier::loop_isolation(false)]
    pub fn var_exists(&self, name: Identifier) -> (r: bool)
        ensures
            r == match find_named(module_view(*self).vars, name.text@) {
                Option::Some(e) => !e.1.0,
                Option::None => false,
            },
    {
        let ghost vs = module_view(*self).vars;
        let n = self.0.vars.len();
        let mut i: usize = 0;
        while i < n
            invariant
                0 <= i <= n,
                n == self.0.vars@.len(),
                vs == vars_view(self.0.vars@),
                forall|t: int| 0 <= t < i ==> vs[t].0 != name.text@,
            decreases n - i,
        {
            if self.0.vars[i].name.text == name.text {
                proof {
                    lemma_find_named_at(vs, name.text@, i as int);
                }
                return !self.0.vars[i].private;
            }
            i += 1;
        }
        proof {
            lemma_find_named_none(vs, name.text@);
        }
        false
    }

    /// Whether a public mixin of this name exists.
    #[verifier::loop_isolation(false)]
    pub fn mixin_exists(&self, name: Identifier) -> (r: bool)
        ensures
            r == match find_named(module_view(*self).mixins, name.text@) {
                Option::Some(e) => !e.1.0,
                Option::None => false,
            },
    {
        let ghost ms = module_view(*self).mixins;
        let n = self.0.mixins.len();
        let mut i: usize = 0;
        while i < n
            invariant
                0 <= i <= n,
                n == self.0.mixins@.len(),
                ms == mixins_view(self.0.mixins@),
                forall|t: int| 0 <= t < i ==> ms[t].0 != name.text@,
            decreases n - i,
        {
            if self.0.mixins[i].name.text == name.text {
                proof {
                    lemma_find_named_at(ms, name.text@, i as int);
                }
                return !self.0.mixins[i].private;
            }
            i += 1;
        }
        proof {
            lemma_find_named_none(ms, name.text@);
        }
        false
    }

    /// The introspection map of the public functions, in stored order.
    #[verifier::loop_isolation(false)]
    pub fn functions(&self) -> (m: SassMap)
        ensures
            sass_map_view(m) == functions_map(module_view(*self).functions),
    {
        let ghost fs = module_view(*self).functions;
        let mut elems: Vec<(Value, Value)> = Vec::new();
        let n = self.0.functions.len();
        let mut i: usize = 0;
        while i < n
            invariant
                0 <= i <= n,
                n == self.0.functions@.len(),
                fs == fns_view(self.0.functions@),
                Seq::new(elems@.len(), |t: int| (value_view(elems@[t].0), value_view(elems@[t].1)))
                    == functions_map(fs.take(i as int)),
            decreases n - i,
        {
            proof {
                lemma_functions_map_push(fs.take(i as int), fs[i as int]);
                assert(fs.take(i as int + 1) =~= fs.take(i as int).push(fs[i as int]));
                let e = fs[i as int];
                assert(seq![e].drop_first() =~= Seq::<
                    (Seq<char>, (bool, (int, Seq<char>))),
                >::empty());
                assert(functions_map(seq![e].drop_first()) =~= Seq::<(ValueV, ValueV)>::empty());
                assert(seq![e][0] == e);
                assert(functions_map(seq![e]) =~= if e.1.0 {
                    Seq::<(ValueV, ValueV)>::empty()
                } else {
                    seq![
                        (
                            ValueV::Text(e.0, QuoteKind::Quoted),
                            ValueV::FunctionRef(e.1.1.0, e.1.1.1),
                        ),
                    ]
                });
            }
            let entry = &self.0.functions[i];
            if !entry.private {
                let key = Value::Text(entry.name.text.clone(), QuoteKind::Quoted);
                let val = Value::FunctionRef(clone_function(&entry.func));
                elems.push((key, val));
            }
            proof {
                assert(Seq::new(
                    elems@.len(),
                    |t: int| (value_view(elems@[t].0), value_view(elems@[t].1)),
                ) =~= functions_map(fs.take(i as int + 1)));
            }
            i += 1;
        }
        proof {
            assert(fs.take(n as int) =~= fs);
        }
        SassMap::new_with(elems)
    }

    /// The introspection map of the public variables, in stored order.
    #[verifier::loop_isolation(false)]
    pub fn variables(&self) -> (m: SassMap)
        ensures
            sass_map_view(m) == variables_map(module_view(*self).vars),
    {
        let ghost vs = module_view(*self).vars;
        let mut elems: Vec<(Value, Value)> = Vec::new();
        let n = self.0.vars.len();
        let mut i: usize = 0;
        while i < n
            invariant
                0 <= i <= n,
                n == self.0.vars@.len(),
                vs == vars_view(self.0.vars@),
                Seq::new(elems@.len(), |t: int| (value_view(elems@[t].0), value_view(elems@[t].1)))
                    == variables_map(vs.take(i as int)),
            decreases n - i,
        {
            proof {
                lemma_variables_map_push(vs.take(i as int), vs[i as int]);
                assert(vs.take(i as int + 1) =~= vs.take(i as int).push(vs[i as int]));
                let e = vs[i as int];
                assert(seq![e].drop_first() =~= Seq::<(Seq<char>, (bool, ValueV))>::empty());
                assert(variables_map(seq![e].drop_first()) =~= Seq::<(ValueV, ValueV)>::empty());
                assert(seq![e][0] == e);
                assert(variables_map(seq![e]) =~= if e.1.0 {
                    Seq::<(ValueV, ValueV)>::empty()
                } else {
                    seq![(ValueV::Text(e.0, QuoteKind::Quoted), e.1.1)]
                });
            }
            let entry = &self.0.vars[i];
            if !entry.private {
                let key = Value::Text(entry.name.text.clone(), QuoteKind::Quoted);
                let val = clone_value(&entry.value);
                elems.push((key, val));
            }
            proof {
                assert(Seq::new(
                    elems@.len(),
                    |t: int| (value_view(elems@[t].0), value_view(elems@[t].1)),
                ) =~= variables_map(vs.take(i as int + 1)));
            }
            i += 1;
        }
        proof {
            assert(vs.take(n as int) =~= vs);
        }
        SassMap::new_with(elems)
    }
}

impl Default for Module {
    fn default() -> (m: Module)
        ensures
            module_view(m).vars.len() == 0,
            module_view(m).mixins.len() == 0,
            module_view(m).functions.len() == 0,
    {
        Module(Scope::new())
    }
}

/// The registry of named modules.
pub struct Modules(Vec<(Identifier, Module)>);

pub closed spec fn modules_view(ms: Modules) -> Seq<(Seq<char>, ModuleV)> {
    Seq::new(ms.0@.len(), |i: int| (ms.0@[i].0.text@, module_view(ms.0@[i].1)))
}

impl Modules {
    pub fn new() -> (ms: Modules)
        ensures
            modules_view(ms) == Seq::<(Seq<char>, ModuleV)>::empty(),
    {
        let ms = Modules(Vec::new());
        proof {
            assert(modules_view(ms) =~= Seq::<(Seq<char>, ModuleV)>::empty());
        }
        ms
    }

    /// Register a module under its namespace name, replacing any module
    /// already registered under that name.
    #[verifier::loop_isolation(false)]
    pub fn insert(&mut self, name: Identifier, module: Module)
        ensures
            modules_view(*final(self)) == upsert_named(
                modules_view(*old(self)),
                (name.text@, module_view(module)),
            ),
    {
        let ghost ms = modules_view(*old(self));
        let ghost e = (name.text@, module_view(module));
        let n = self.0.len();
        let mut i: usize = 0;
        while i < n
            invariant
                0 <= i <= n,
                n == self.0@.len(),
                ms == modules_view(*self),
                *self == *old(self),
                forall|t: int| 0 <= t < i ==> ms[t].0 != name.text@,
            decreases n - i,
        {
            if self.0[i].0.text == name.text {
                proof {
                    lemma_upsert_named_at(ms, e, i as int);
                }
                self.0.remove(i);
                self.0.insert(i, (name, module));
                proof {
                    assert(modules_view(*self) =~= ms.update(i as int, e));
                }
                return ;
            }
            i += 1;
        }
        proof {
            lemma_upsert_named_push(ms, e);
        }
        self.0.push((name, module));
        proof {
            assert(modules_view(*self) =~= ms.push(e));
        }
    }

    /// Look a module up by its namespace name.
    #[verifier::loop_isolation(false)]
    pub fn get(&self, name: Identifier, span: Span) -> (r: Result<&Module, SassError>)
        ensures
            match find_named(modules_view(*self), name.text@) {
                Option::Some(e) => r matches Ok(m) && module_view(*m) == e.1,
                Option::None => r matches Err(SassError::NoSuchModule(n, sp)) && n.text@
                    == name.text@ && sp == span,
            },
    {
        let ghost ms = modules_view(*self);
        let n = self.0.len();
        let mut i: usize = 0;
        while i < n
            invariant
                0 <= i <= n,
                n == self.0@.len(),
                ms == modules_view(*self),
                forall|t: int| 0 <= t < i ==> ms[t].0 != name.text@,
            decreases n - i,
        {
            if self.0[i].0.text == name.text {
                proof {
                    lemma_find_named_at(ms, name.text@, i as int);
                }
                return Ok(&self.0[i].1);
            }
            i += 1;
        }
        proof {
            lemma_find_named_none(ms, name.text@);
        }
        Err(SassError::NoSuchModule(name, span))
    }
}

impl Default for Modules {
    fn default() -> (ms: Modules)
        ensures
            modules_view(ms).len() == 0,
    {
        Modules::new()
    }
}

/// The built-in color module, ready for its entries.
pub fn declare_module_color() -> (m: Module)
    ensures
        module_view(m).vars.len() == 0,
        module_view(m).functions.len() == 0,
{
    Module::default()
}

/// The built-in list module, ready for its entries.
pub fn declare_module_list() -> (m: Module)
    ensures
        module_view(m).vars.len() == 0,
        module_view(m).functions.len() == 0,
{
    Module::default()
}

/// The built-in map module, ready for its entries.
pub fn declare_module_map() -> (m: Module)
    ensures
        module_view(m).vars.len() == 0,
        module_view(m).functions.len() == 0,
{
    Module::default()
}

/// The built-in math module, ready for its entries.
pub fn declare_module_math() -> (m: Module)
    ensures
        module_view(m).vars.len() == 0,
        module_view(m).functions.len() == 0,
{
    Module::default()
}

/// The built-in meta module, ready for its entries.
pub fn declare_module_meta() -> (m: Module)
    ensures
        module_view(m).vars.len() == 0,
        module_view(m).functions.len() == 0,
{
    Module::default()
}

/// The built-in selector module, ready for its entries.
pub fn declare_module_selector() -> (m: Module)
    ensures
        module_view(m).vars.len() == 0,
        module_view(m).functions.len() == 0,
{
    Module::default()
}

/// The built-in string module, ready for its entries.
pub fn declare_module_string() -> (m: Module)
    ensures
        module_view(m).vars.len() == 0,
        module_view(m).functions.len() == 0,
{
    Module::default()
}

} // verus!
