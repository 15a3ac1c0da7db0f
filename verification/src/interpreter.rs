//! The execution environment and the command dispatcher.
//!
//! An `Environment` owns the program model (read-only after load), the
//! variable table, the current section and program counter, and the
//! comparison-flag register. It is loaded with `interpret`, started with
//! `start`, and driven one command at a time with `step`; input lines are
//! handed in with `supply_input`. `start_program` runs the whole machine
//! against a queue of input lines and collects the printed output.

use crate::error::Error;
use crate::value::{Value, ValueModel, ValueType};
use vstd::prelude::*;

verus! {

/// A declared variable: its name, declared type and current value.
/// A freshly declared variable has no value yet.
pub struct Variable {
    pub name: String,
    pub vtype: ValueType,
    pub value: Option<Value>,
}

/// Model of a variable.
pub ghost struct VarModel {
    pub name: Seq<char>,
    pub vtype: ValueType,
    pub value: Option<ValueModel>,
}

impl View for Variable {
    type V = VarModel;

    open spec fn view(&self) -> VarModel {
        VarModel {
            name: self.name@,
            vtype: self.vtype,
            value: match self.value {
                Option::Some(v) => Option::Some(v@),
                Option::None => Option::None,
            },
        }
    }
}

impl DeepView for Variable {
    type V = VarModel;

    open spec fn deep_view(&self) -> VarModel {
        self.view()
    }
}

/// Index of the first variable with the given name, or -1 if none.
pub open spec fn var_index(vs: Seq<VarModel>, name: Seq<char>) -> int
    decreases vs.len(),
{
    if vs.len() == 0 {
        -1
    } else if vs[0].name == name {
        0
    } else {
        let r = var_index(vs.drop_first(), name);
        if r < 0 {
            -1
        } else {
            r + 1
        }
    }
}

/// `var_index` finds exactly the first entry with the given name.
pub proof fn lemma_var_index(vs: Seq<VarModel>, name: Seq<char>)
    ensures
        var_index(vs, name) == -1 ==> forall|j: int| 0 <= j < vs.len() ==> vs[j].name != name,
        var_index(vs, name) != -1 ==> {
            let i = var_index(vs, name);
            &&& 0 <= i < vs.len()
            &&& vs[i].name == name
            &&& forall|j: int| 0 <= j < i ==> vs[j].name != name
        },
    decreases vs.len(),
{
    if vs.len() > 0 && vs[0].name != name {
        let t = vs.drop_first();
        lemma_var_index(t, name);
        assert(forall|j: int| 1 <= j < vs.len() ==> #[trigger] vs[j].name == t[j - 1].name);
        let r = var_index(t, name);
        if r == -1 {
            assert(forall|j: int| 0 <= j < vs.len() ==> vs[j].name != name);
        } else {
            assert(vs[r + 1] == t[r]);
            assert(forall|j: int| 0 <= j < r + 1 ==> vs[j].name != name);
        }
    }
}

/// The first variable with the given name, if any.
pub open spec fn lookup_var(vs: Seq<VarModel>, name: Seq<char>) -> Option<VarModel> {
    let i = var_index(vs, name);
    if i == -1 {
        Option::None
    } else {
        Option::Some(vs[i])
    }
}

/// The current value bound to a name: `None` when the name is undeclared
/// or declared without a value yet.
pub open spec fn resolve(vs: Seq<VarModel>, name: Seq<char>) -> Option<ValueModel> {
    match lookup_var(vs, name) {
        Option::Some(vm) => vm.value,
        Option::None => Option::None,
    }
}

/// Execution phase of the machine.
#[derive(Clone, Copy, PartialEq, Eq, Structural, Debug)]
pub enum Phase {
    Ready,
    Running,
    Halted,
}

/// The comparison-flag register: set by a compare command, consumed by
/// conditional jumps. Before the first comparison it is undefined
/// (`None` in the environment).
#[derive(Clone, Copy, PartialEq, Eq, Structural, Debug)]
pub enum CmpFlag {
    Less,
    Equal,
    Greater,
}

/// The predicate a conditional jump applies to the comparison flag.
#[derive(Clone, Copy, PartialEq, Eq, Structural, Debug)]
pub enum JumpCond {
    Equal,
    NotEqual,
    Less,
    LessOrEqual,
    Greater,
    GreaterOrEqual,
}

/// One command: an opcode with its raw operand text. Operand expressions
/// stay unparsed until execution, since they may name variables whose
/// value changes between loads and runs.
pub enum Command {
    /// Evaluate an expression and store it into a declared variable.
    Move(String, String),
    /// Remove a variable's binding.
    Clear(String),
    /// Declare a variable with a name and a type, no value yet.
    Decl(String, ValueType),
    /// Declare a variable and give it the value of an expression.
    DeclWV(String, ValueType, String),
    /// Transfer control to the start of a named section.
    Jump(String),
    /// Evaluate two expressions and set the comparison flag.
    Cmp(String, String),
    /// Jump to the named section when the comparison flag satisfies the
    /// predicate; fall through otherwise.
    CondJump(JumpCond, String),
    /// Evaluate an expression and write its display text.
    Print(String),
    /// Like Print, with a trailing line break.
    Println(String),
    /// Halt immediately, ignoring any remaining commands.
    Quit,
    /// Read one line and store it into a variable as a text value.
    Input(String),
    /// Read one line, store it, then jump to the named section.
    InputUp(String, String),
}

/// Model of a command.
pub ghost enum CommandModel {
    Move(Seq<char>, Seq<char>),
    Clear(Seq<char>),
    Decl(Seq<char>, ValueType),
    DeclWV(Seq<char>, ValueType, Seq<char>),
    Jump(Seq<char>),
    Cmp(Seq<char>, Seq<char>),
    CondJump(JumpCond, Seq<char>),
    Print(Seq<char>),
    Println(Seq<char>),
    Quit,
    Input(Seq<char>),
    InputUp(Seq<char>, Seq<char>),
}

impl View for Command {
    type V = CommandModel;

    open spec fn view(&self) -> CommandModel {
        match self {
            Command::Move(a, b) => CommandModel::Move(a@, b@),
            Command::Clear(a) => CommandModel::Clear(a@),
            Command::Decl(a, t) => CommandModel::Decl(a@, *t),
            Command::DeclWV(a, t, b) => CommandModel::DeclWV(a@, *t, b@),
            Command::Jump(a) => CommandModel::Jump(a@),
            Command::Cmp(a, b) => CommandModel::Cmp(a@, b@),
            Command::CondJump(c, a) => CommandModel::CondJump(*c, a@),
            Command::Print(a) => CommandModel::Print(a@),
            Command::Println(a) => CommandModel::Println(a@),
            Command::Quit => CommandModel::Quit,
            Command::Input(a) => CommandModel::Input(a@),
            Command::InputUp(a, b) => CommandModel::InputUp(a@, b@),
        }
    }
}

impl DeepView for Command {
    type V = CommandModel;

    open spec fn deep_view(&self) -> CommandModel {
        self.view()
    }
}

/// A named, ordered block of commands: the unit of jump targets.
pub struct Section {
    pub name: String,
    pub commands: Vec<Command>,
}

/// Model of a section.
pub ghost struct SectionModel {
    pub name: Seq<char>,
    pub commands: Seq<CommandModel>,
}

impl View for Section {
    type V = SectionModel;

    open spec fn view(&self) -> SectionModel {
        SectionModel { name: self.name@, commands: self.commands.deep_view() }
    }
}

impl DeepView for Section {
    type V = SectionModel;

    open spec fn deep_view(&self) -> SectionModel {
        self.view()
    }
}

/// What the external lexer produces for one source file: its sections.
pub struct SourceUnit {
    pub sections: Vec<Section>,
}

impl View for SourceUnit {
    type V = Seq<SectionModel>;

    open spec fn view(&self) -> Seq<SectionModel> {
        self.sections.deep_view()
    }
}

/// How many sections of the list carry the given name.
pub open spec fn count_named(ss: Seq<SectionModel>, name: Seq<char>) -> int
    decreases ss.len(),
{
    if ss.len() == 0 {
        0
    } else {
        count_named(ss.drop_last(), name) + if ss.last().name == name {
            1int
        } else {
            0int
        }
    }
}

/// Index of the first section with the given name, or -1 if none.
pub open spec fn section_index(ss: Seq<SectionModel>, name: Seq<char>) -> int
    decreases ss.len(),
{
    if ss.len() == 0 {
        -1
    } else if ss[0].name == name {
        0
    } else {
        let r = section_index(ss.drop_first(), name);
        if r < 0 {
            -1
        } else {
            r + 1
        }
    }
}

/// `section_index` finds exactly the first section with the given name.
pub proof fn lemma_section_index(ss: Seq<SectionModel>, name: Seq<char>)
    ensures
        section_index(ss, name) == -1 ==> forall|j: int| 0 <= j < ss.len() ==> ss[j].name != name,
        section_index(ss, name) != -1 ==> {
            let i = section_index(ss, name);
            &&& 0 <= i < ss.len()
            &&& ss[i].name == name
            &&& forall|j: int| 0 <= j < i ==> ss[j].name != name
        },
    decreases ss.len(),
{
    if ss.len() > 0 && ss[0].name != name {
        let t = ss.drop_first();
        lemma_section_index(t, name);
        assert(forall|j: int| 1 <= j < ss.len() ==> #[trigger] ss[j].name == t[j - 1].name);
        let r = section_index(t, name);
        if r == -1 {
            assert(forall|j: int| 0 <= j < ss.len() ==> ss[j].name != name);
        } else {
            assert(ss[r + 1] == t[r]);
            assert(forall|j: int| 0 <= j < r + 1 ==> ss[j].name != name);
        }
    }
}

/// A pending input request: the variable to fill and, for the
/// read-then-jump variant, the target section.
pub struct Pending {
    pub var: String,
    pub target: Option<String>,
}

/// Model of a pending input request.
pub ghost struct PendingModel {
    pub var: Seq<char>,
    pub target: Option<Seq<char>>,
}

impl View for Pending {
    type V = PendingModel;

    open spec fn view(&self) -> PendingModel {
        PendingModel {
            var: self.var@,
            target: match &self.target {
                Option::Some(t) => Option::Some(t@),
                Option::None => Option::None,
            },
        }
    }
}

/// Model of the whole machine.
pub ghost struct EnvModel {
    pub sections: Seq<SectionModel>,
    pub vars: Seq<VarModel>,
    pub entry: Seq<char>,
    pub phase: Phase,
    pub cur: int,
    pub pc: int,
    pub flag: Option<CmpFlag>,
    pub pending: Option<PendingModel>,
}

/// The execution environment: program model, variable table, program
/// counter and comparison flag.
pub struct Environment {
    pub sections: Vec<Section>,
    pub vars: Vec<Variable>,
    pub entry: String,
    pub phase: Phase,
    pub cur: usize,
    pub pc: usize,
    pub flag: Option<CmpFlag>,
    pub pending: Option<Pending>,
}

impl View for Environment {
    type V = EnvModel;

    open spec fn view(&self) -> EnvModel {
        EnvModel {
            sections: self.sections.deep_view(),
            vars: self.vars.deep_view(),
            entry: self.entry@,
            phase: self.phase,
            cur: self.cur as int,
            pc: self.pc as int,
            flag: self.flag,
            pending: match &self.pending {
                Option::Some(p) => Option::Some(p@),
                Option::None => Option::None,
            },
        }
    }
}

impl Environment {
    /// The machine's structural invariant: when running, the current
    /// section exists; a pending input only occurs while running.
    pub open spec fn wf(&self) -> bool {
        &&& (self@.phase is Running ==> 0 <= self@.cur < self@.sections.len())
        &&& (self@.pending is Some ==> self@.phase is Running)
    }

    /// A fresh environment configured with the entry section's name.
    pub fn new(entry: String) -> (r: Environment)
        ensures
            r.wf(),
            r@.sections == Seq::<SectionModel>::empty(),
            r@.vars == Seq::<VarModel>::empty(),
            r@.entry == entry@,
            r@.phase is Ready,
            r@.flag is None,
            r@.pending is None,
    {
        let r = Environment {
            sections: Vec::new(),
            vars: Vec::new(),
            entry,
            phase: Phase::Ready,
            cur: 0,
            pc: 0,
            flag: Option::None,
            pending: Option::None,
        };
        proof {
            assert(r.sections.deep_view() =~= Seq::<SectionModel>::empty());
            assert(r.vars.deep_view() =~= Seq::<VarModel>::empty());
        }
        r
    }

    /// Index of the first variable with the given name, if any.
    fn find_var(&self, name: &str) -> (r: Option<usize>)
        ensures
            match r {
                Option::Some(i) => var_index(self@.vars, name@) == i as int,
                Option::None => var_index(self@.vars, name@) == -1,
            },
    {
        let n = self.vars.len();
        let mut i: usize = 0;
        proof {
            lemma_var_index(self@.vars, name@);
            assert(self@.vars.len() == n) by {
                assert(self@.vars == self.vars.deep_view());
            }
        }
        while i < n
            invariant
                i <= n,
                n == self@.vars.len(),
                self@.vars == self.vars.deep_view(),
                forall|j: int| 0 <= j < i ==> self@.vars[j].name != name@,
            decreases n - i,
        {
            proof {
                assert(self@.vars[i as int].name == self.vars@[i as int]@.name);
            }
            if crate::text::str_eq(self.vars[i].name.as_str(), name) {
                proof {
                    lemma_var_index(self@.vars, name@);
                    assert(var_index(self@.vars, name@) != -1);
                    assert(var_index(self@.vars, name@) == i as int);
                }
                return Option::Some(i);
            }
            i += 1;
        }
        proof {
            lemma_var_index(self@.vars, name@);
            if var_index(self@.vars, name@) != -1 {
                assert(false);
            }
        }
        Option::None
    }

    /// The value currently bound to a name; fails with `UnknownSymbol`
    /// when the name is undeclared or carries no value yet.
    pub fn get_var(&self, name: &str) -> (r: Result<&Value, Error>)
        ensures
            match r {
                Result::Ok(v) => resolve(self@.vars, name@) == Option::Some(v@),
                Result::Err(e) => e == Error::UnknownSymbol && resolve(self@.vars, name@)
                    is None,
            },
    {
        match self.find_var(name) {
            Option::Some(i) => {
                proof {
                    lemma_var_index(self@.vars, name@);
                    assert(self@.vars[i as int] == self.vars@[i as int]@);
                }
                match &self.vars[i].value {
                    Option::Some(v) => Result::Ok(v),
                    Option::None => Result::Err(Error::UnknownSymbol),
                }
            },
            Option::None => Result::Err(Error::UnknownSymbol),
        }
    }
}

// ---------------------------------------------------------------------------
// Comparison
// ---------------------------------------------------------------------------
/// Lexicographic order on character sequences; a proper prefix sorts first.
pub open spec fn lex_cmp(a: Seq<char>, b: Seq<char>) -> CmpFlag
    decreases a.len() + b.len(),
{
    if a.len() == 0 && b.len() == 0 {
        CmpFlag::Equal
    } else if a.len() == 0 {
        CmpFlag::Less
    } else if b.len() == 0 {
        CmpFlag::Greater
    } else if a[0] == b[0] {
        lex_cmp(a.drop_first(), b.drop_first())
    } else if a[0] < b[0] {
        CmpFlag::Less
    } else {
        CmpFlag::Greater
    }
}

/// What comparing two values yields: numeric order for numbers,
/// lexicographic order for texts, an error across types.
pub open spec fn compare_spec(a: ValueModel, b: ValueModel) -> Result<CmpFlag, Error> {
    match (a, b) {
        (ValueModel::Number(x), ValueModel::Number(y)) => Result::Ok(
            if x < y {
                CmpFlag::Less
            } else if x == y {
                CmpFlag::Equal
            } else {
                CmpFlag::Greater
            },
        ),
        (ValueModel::Str(x), ValueModel::Str(y)) => Result::Ok(lex_cmp(x, y)),
        _ => Result::Err(Error::TypeMismatchOnComparison),
    }
}

fn str_cmp(a: &str, b: &str) -> (r: CmpFlag)
    ensures
        r == lex_cmp(a@, b@),
{
    let an = a.unicode_len();
    let bn = b.unicode_len();
    let mut i: usize = 0;
    proof {
        assert(a@.skip(0) =~= a@);
        assert(b@.skip(0) =~= b@);
    }
    while i < an && i < bn
        invariant
            i <= an,
            i <= bn,
            an == a@.len(),
            bn == b@.len(),
            lex_cmp(a@, b@) == lex_cmp(a@.skip(i as int), b@.skip(i as int)),
        decreases an - i,
    {
        let ca = a.get_char(i);
        let cb = b.get_char(i);
        proof {
            assert(a@.skip(i as int)[0] == a@[i as int]);
            assert(b@.skip(i as int)[0] == b@[i as int]);
            assert(a@.skip(i as int).drop_first() =~= a@.skip(i as int + 1));
            assert(b@.skip(i as int).drop_first() =~= b@.skip(i as int + 1));
        }
        if ca == cb {
            i += 1;
        } else if ca < cb {
            return CmpFlag::Less;
        } else {
            return CmpFlag::Greater;
        }
    }
    proof {
        if i == an {
            assert(a@.skip(i as int) =~= Seq::<char>::empty());
        }
        if i == bn {
            assert(b@.skip(i as int) =~= Seq::<char>::empty());
        }
    }
    if an == bn {
        CmpFlag::Equal
    } else if an < bn {
        CmpFlag::Less
    } else {
        CmpFlag::Greater
    }
}

/// Compares two values: numeric order for numbers, lexicographic order for
/// texts; values of incompatible types cannot be compared.
pub fn compare_values(a: &Value, b: &Value) -> (r: Result<CmpFlag, Error>)
    ensures
        r == compare_spec(a@, b@),
{
    match (a, b) {
        (Value::Number(x), Value::Number(y)) => Result::Ok(
            if *x < *y {
                CmpFlag::Less
            } else if *x == *y {
                CmpFlag::Equal
            } else {
                CmpFlag::Greater
            },
        ),
        (Value::Str(x), Value::Str(y)) => Result::Ok(str_cmp(x.as_str(), y.as_str())),
        _ => Result::Err(Error::TypeMismatchOnComparison),
    }
}

/// Whether the comparison flag satisfies a conditional jump's predicate.
pub open spec fn cond_holds(c: JumpCond, f: CmpFlag) -> bool {
    match c {
        JumpCond::Equal => f is Equal,
        JumpCond::NotEqual => !(f is Equal),
        JumpCond::Less => f is Less,
        JumpCond::LessOrEqual => f is Less || f is Equal,
        JumpCond::Greater => f is Greater,
        JumpCond::GreaterOrEqual => f is Greater || f is Equal,
    }
}

fn cond_holds_exec(c: JumpCond, f: CmpFlag) -> (r: bool)
    ensures
        r == cond_holds(c, f),
{
    match c {
        JumpCond::Equal => matches!(f, CmpFlag::Equal),
        JumpCond::NotEqual => !matches!(f, CmpFlag::Equal),
        JumpCond::Less => matches!(f, CmpFlag::Less),
        JumpCond::LessOrEqual => !matches!(f, CmpFlag::Greater),
        JumpCond::Greater => matches!(f, CmpFlag::Greater),
        JumpCond::GreaterOrEqual => !matches!(f, CmpFlag::Less),
    }
}

// ---------------------------------------------------------------------------
// The step machine
// ---------------------------------------------------------------------------
/// What one step of the machine reports to its driver.
pub enum StepEvent {
    /// Internal state changed; nothing to do.
    Proceeded,
    /// Write this text to the output.
    Printed(String),
    /// Hand the next input line to `supply_input`.
    AwaitInput,
    /// The machine halted.
    Halted,
}

/// Model of a step event.
pub ghost enum EventModel {
    Proceeded,
    Printed(Seq<char>),
    AwaitInput,
    Halted,
}

impl View for StepEvent {
    type V = EventModel;

    open spec fn view(&self) -> EventModel {
        match self {
            StepEvent::Proceeded => EventModel::Proceeded,
            StepEvent::Printed(t) => EventModel::Printed(t@),
            StepEvent::AwaitInput => EventModel::AwaitInput,
            StepEvent::Halted => EventModel::Halted,
        }
    }
}

/// The variable table with the first entry of the given name now bound to
/// the value.
pub open spec fn set_var_value(vs: Seq<VarModel>, name: Seq<char>, v: ValueModel) -> Seq<VarModel> {
    let i = var_index(vs, name);
    vs.update(
        i,
        VarModel { name: vs[i].name, vtype: vs[i].vtype, value: Option::Some(v) },
    )
}

/// The variable table without the first entry of the given name.
pub open spec fn remove_var(vs: Seq<VarModel>, name: Seq<char>) -> Seq<VarModel> {
    vs.remove(var_index(vs, name))
}

/// Control transferred to the start of the named section.
pub open spec fn jump_to(m: EnvModel, t: Seq<char>) -> Result<EnvModel, Error> {
    let i = section_index(m.sections, t);
    if i == -1 {
        Result::Err(Error::UnknownSection)
    } else {
        Result::Ok(EnvModel { phase: Phase::Running, cur: i, pc: 0, ..m })
    }
}

/// The machine after the program counter advanced by one.
pub open spec fn advanced(m: EnvModel) -> EnvModel {
    EnvModel { pc: m.pc + 1, ..m }
}

/// The effect of one command on the machine: the dispatch table.
pub open spec fn cmd_step(m: EnvModel, cmd: CommandModel) -> Result<(EnvModel, EventModel), Error> {
    match cmd {
        CommandModel::Move(name, e) => match crate::value::parse_expr_spec(e, m.vars) {
            Result::Err(er) => Result::Err(er),
            Result::Ok(v) => match lookup_var(m.vars, name) {
                Option::None => Result::Err(Error::UndeclaredVariable),
                Option::Some(vm) => if !crate::value::vt_eq(crate::value::vt_of(v), vm.vtype) {
                    Result::Err(Error::TypeMismatchOnAssignment)
                } else {
                    Result::Ok(
                        (
                            EnvModel { vars: set_var_value(m.vars, name, v), ..advanced(m) },
                            EventModel::Proceeded,
                        ),
                    )
                },
            },
        },
        CommandModel::Clear(name) => match lookup_var(m.vars, name) {
            Option::None => Result::Err(Error::UndeclaredVariable),
            Option::Some(_) => Result::Ok(
                (EnvModel { vars: remove_var(m.vars, name), ..advanced(m) }, EventModel::Proceeded),
            ),
        },
        CommandModel::Decl(name, ty) => if lookup_var(m.vars, name) is Some {
            Result::Err(Error::DuplicateDeclaration)
        } else {
            Result::Ok(
                (
                    EnvModel {
                        vars: m.vars.push(VarModel { name, vtype: ty, value: Option::None }),
                        ..advanced(m)
                    },
                    EventModel::Proceeded,
                ),
            )
        },
        CommandModel::DeclWV(name, ty, e) => if lookup_var(m.vars, name) is Some {
            Result::Err(Error::DuplicateDeclaration)
        } else {
            match crate::value::parse_expr_spec(e, m.vars) {
                Result::Err(er) => Result::Err(er),
                Result::Ok(v) => if !crate::value::vt_eq(crate::value::vt_of(v), ty) {
                    Result::Err(Error::TypeMismatchOnDeclaration)
                } else {
                    Result::Ok(
                        (
                            EnvModel {
                                vars: m.vars.push(
                                    VarModel { name, vtype: ty, value: Option::Some(v) },
                                ),
                                ..advanced(m)
                            },
                            EventModel::Proceeded,
                        ),
                    )
                },
            }
        },
        CommandModel::Jump(t) => match jump_to(m, t) {
            Result::Err(er) => Result::Err(er),
            Result::Ok(m2) => Result::Ok((m2, EventModel::Proceeded)),
        },
        CommandModel::Cmp(e1, e2) => match crate::value::parse_expr_spec(e1, m.vars) {
            Result::Err(er) => Result::Err(er),
            Result::Ok(v1) => match crate::value::parse_expr_spec(e2, m.vars) {
                Result::Err(er) => Result::Err(er),
                Result::Ok(v2) => match compare_spec(v1, v2) {
                    Result::Err(er) => Result::Err(er),
                    Result::Ok(f) => Result::Ok(
                        (
                            EnvModel { flag: Option::Some(f), ..advanced(m) },
                            EventModel::Proceeded,
                        ),
                    ),
                },
            },
        },
        CommandModel::CondJump(c, t) => match m.flag {
            Option::None => Result::Err(Error::MissingComparison),
            Option::Some(f) => if cond_holds(c, f) {
                match jump_to(m, t) {
                    Result::Err(er) => Result::Err(er),
                    Result::Ok(m2) => Result::Ok((m2, EventModel::Proceeded)),
                }
            } else {
                Result::Ok((advanced(m), EventModel::Proceeded))
            },
        },
        CommandModel::Print(e) => match crate::value::parse_expr_spec(e, m.vars) {
            Result::Err(er) => Result::Err(er),
            Result::Ok(v) => Result::Ok(
                (advanced(m), EventModel::Printed(crate::value::display_spec(v))),
            ),
        },
        CommandModel::Println(e) => match crate::value::parse_expr_spec(e, m.vars) {
            Result::Err(er) => Result::Err(er),
            Result::Ok(v) => Result::Ok(
                (advanced(m), EventModel::Printed(crate::value::display_spec(v) + seq!['\n'])),
            ),
        },
        CommandModel::Quit => Result::Ok(
            (EnvModel { phase: Phase::Halted, ..m }, EventModel::Halted),
        ),
        CommandModel::Input(name) => Result::Ok(
            (
                EnvModel {
                    pending: Option::Some(PendingModel { var: name, target: Option::None }),
                    ..advanced(m)
                },
                EventModel::AwaitInput,
            ),
        ),
        CommandModel::InputUp(name, t) => Result::Ok(
            (
                EnvModel {
                    pending: Option::Some(PendingModel { var: name, target: Option::Some(t) }),
                    ..advanced(m)
                },
                EventModel::AwaitInput,
            ),
        ),
    }
}

/// One step of the machine: a halted machine stays halted; a program
/// counter past the end of the current section halts; otherwise the
/// current command executes.
pub open spec fn step_spec(m: EnvModel) -> Result<(EnvModel, EventModel), Error>
    recommends
        !(m.phase is Ready),
        m.pending is None,
{
    if m.phase is Halted {
        Result::Ok((m, EventModel::Halted))
    } else {
        let cmds = m.sections[m.cur].commands;
        if m.pc >= cmds.len() {
            Result::Ok((EnvModel { phase: Phase::Halted, ..m }, EventModel::Halted))
        } else {
            cmd_step(m, cmds[m.pc])
        }
    }
}

/// What supplying an input line does: the pending variable receives the
/// line as a text value (it must be declared with the text type), and the
/// read-then-jump variant then transfers control.
pub open spec fn supply_spec(m: EnvModel, line: Seq<char>) -> Result<EnvModel, Error>
    recommends
        m.pending is Some,
{
    let p = m.pending.unwrap();
    match lookup_var(m.vars, p.var) {
        Option::None => Result::Err(Error::UndeclaredVariable),
        Option::Some(vm) => if !crate::value::vt_eq(ValueType::Str, vm.vtype) {
            Result::Err(Error::TypeMismatchOnAssignment)
        } else {
            let m2 = EnvModel {
                vars: set_var_value(m.vars, p.var, ValueModel::Str(line)),
                pending: Option::None,
                ..m
            };
            match p.target {
                Option::None => Result::Ok(m2),
                Option::Some(t) => jump_to(m2, t),
            }
        },
    }
}

/// The machine as `start` leaves it: running at the top of the entry
/// section.
pub open spec fn started(m: EnvModel) -> EnvModel {
    EnvModel { phase: Phase::Running, cur: section_index(m.sections, m.entry), pc: 0, ..m }
}

/// The whole machine together with its output so far and the input lines
/// it has not consumed yet.
pub ghost struct MachineModel {
    pub env: EnvModel,
    pub outs: Seq<Seq<char>>,
    pub ins: Seq<Seq<char>>,
}

/// The machine a whole run begins from.
pub open spec fn start_machine(m: EnvModel, ins: Seq<Seq<char>>) -> MachineModel {
    MachineModel { env: started(m), outs: Seq::empty(), ins }
}

/// One step of the driven machine: printed text is appended to the output,
/// and an input request consumes the next input line (an exhausted queue
/// reads as an empty line, as an ended input stream would).
pub open spec fn machine_step(mm: MachineModel) -> Result<MachineModel, Error> {
    match step_spec(mm.env) {
        Result::Err(e) => Result::Err(e),
        Result::Ok((m2, ev)) => match ev {
            EventModel::Proceeded => Result::Ok(MachineModel { env: m2, ..mm }),
            EventModel::Halted => Result::Ok(MachineModel { env: m2, ..mm }),
            EventModel::Printed(t) => Result::Ok(
                MachineModel { env: m2, outs: mm.outs.push(t), ..mm },
            ),
            EventModel::AwaitInput => {
                let line = if mm.ins.len() > 0 {
                    mm.ins[0]
                } else {
                    Seq::empty()
                };
                let rest = if mm.ins.len() > 0 {
                    mm.ins.drop_first()
                } else {
                    mm.ins
                };
                match supply_spec(m2, line) {
                    Result::Err(e) => Result::Err(e),
                    Result::Ok(m3) => Result::Ok(MachineModel { env: m3, ins: rest, ..mm }),
                }
            },
        },
    }
}

/// The machine after `k` driven steps; a halted machine stays put, so no
/// command executes past a halt.
pub open spec fn run_steps(mm: MachineModel, k: nat) -> Result<MachineModel, Error>
    decreases k,
{
    if k == 0 {
        Result::Ok(mm)
    } else {
        match run_steps(mm, (k - 1) as nat) {
            Result::Err(e) => Result::Err(e),
            Result::Ok(m) => if m.env.phase is Halted {
                Result::Ok(m)
            } else {
                machine_step(m)
            },
        }
    }
}

/// After `k` driven steps the machine stands at `env` having printed
/// `outs` (in that many chunks).
pub open spec fn run_reaches(mm0: MachineModel, env: EnvModel, outs: Seq<Seq<char>>, k: nat) -> bool {
    match run_steps(mm0, k) {
        Result::Ok(m) => m.env == env && m.outs == outs,
        Result::Err(_) => false,
    }
}

/// The `k`-th driven step fails with `e`.
pub open spec fn run_fails(mm0: MachineModel, e: Error, k: nat) -> bool {
    run_steps(mm0, k) == Result::<MachineModel, Error>::Err(e)
}

/// A whole run from `m0` over the inputs `ins` ends at `envf` having
/// printed `outs`: some number of driven steps reaches exactly that state,
/// and the machine halted unless the step budget `max` ran out.
pub open spec fn run_outcome_ok(
    m0: EnvModel,
    ins: Seq<Seq<char>>,
    envf: EnvModel,
    outs: Seq<Seq<char>>,
    max: nat,
) -> bool {
    exists|k: nat|
        #[trigger] run_reaches(start_machine(m0, ins), envf, outs, k) && (envf.phase is Halted || k
            == max)
}

/// A run from `m0` fails with `e`: some driven step does.
pub open spec fn run_outcome_err(m0: EnvModel, ins: Seq<Seq<char>>, e: Error) -> bool {
    exists|k: nat| #[trigger] run_fails(start_machine(m0, ins), e, k)
}

impl Environment {
    /// Index of the first section with the given name, if any.
    fn find_section(&self, name: &str) -> (r: Option<usize>)
        ensures
            match r {
                Option::Some(i) => section_index(self@.sections, name@) == i as int,
                Option::None => section_index(self@.sections, name@) == -1,
            },
    {
        let n = self.sections.len();
        let mut i: usize = 0;
        proof {
            lemma_section_index(self@.sections, name@);
        }
        while i < n
            invariant
                i <= n,
                n == self@.sections.len(),
                self@.sections == self.sections.deep_view(),
                forall|j: int| 0 <= j < i ==> self@.sections[j].name != name@,
            decreases n - i,
        {
            proof {
                assert(self@.sections[i as int].name == self.sections@[i as int]@.name);
            }
            if crate::text::str_eq(self.sections[i].name.as_str(), name) {
                proof {
                    lemma_section_index(self@.sections, name@);
                }
                return Option::Some(i);
            }
            i += 1;
        }
        proof {
            lemma_section_index(self@.sections, name@);
            if section_index(self@.sections, name@) != -1 {
                assert(false);
            }
        }
        Option::None
    }

    /// Stores an evaluated value into the variable at table index `i`.
    fn store_value(&mut self, i: usize, v: Value)
        requires
            i < old(self).vars.len(),
        ensures
            final(self)@ == (EnvModel {
                vars: old(self)@.vars.update(
                    i as int,
                    VarModel {
                        name: old(self)@.vars[i as int].name,
                        vtype: old(self)@.vars[i as int].vtype,
                        value: Option::Some(v@),
                    },
                ),
                ..old(self)@
            }),
    {
        let name = self.vars[i].name.clone();
        let vtype = self.vars[i].vtype;
        self.vars[i] = Variable { name, vtype, value: Option::Some(v) };
        proof {
            assert(self@.vars =~= old(self)@.vars.update(
                i as int,
                VarModel {
                    name: old(self)@.vars[i as int].name,
                    vtype: old(self)@.vars[i as int].vtype,
                    value: self@.vars[i as int].value,
                },
            ));
        }
    }

    /// Executes the command at the program counter and reports its effect.
    /// On an error the machine is left unchanged; every such error is fatal
    /// to the run.
    pub fn step(&mut self) -> (r: Result<StepEvent, Error>)
        requires
            old(self).wf(),
            !(old(self)@.phase is Ready),
            old(self)@.pending is None,
        ensures
            final(self).wf(),
            match r {
                Result::Ok(ev) => step_spec(old(self)@) == Result::<
                    (EnvModel, EventModel),
                    Error,
                >::Ok((final(self)@, ev@)),
                Result::Err(e) => step_spec(old(self)@) == Result::<
                    (EnvModel, EventModel),
                    Error,
                >::Err(e) && final(self)@ == old(self)@,
            },
            r matches Result::Ok(ev) ==> ((final(self)@.pending is Some) <==> (ev@
                is AwaitInput)),
            r matches Result::Ok(ev) ==> (!(ev@ is Halted) ==> final(self)@.phase is Running),
            r matches Result::Ok(ev) ==> ((ev@ is Halted) ==> final(self)@.phase is Halted),
    {
        if matches!(self.phase, Phase::Halted) {
            return Result::Ok(StepEvent::Halted);
        }
        let cur = self.cur;
        let pc = self.pc;
        let ghost m0 = self@;
        proof {
            assert(m0.sections[cur as int].commands == self.sections@[cur as int]@.commands);
        }
        if pc >= self.sections[cur].commands.len() {
            self.phase = Phase::Halted;
            return Result::Ok(StepEvent::Halted);
        }
        let ghost cmdm = m0.sections[cur as int].commands[pc as int];
        proof {
            assert(cmdm == self.sections@[cur as int].commands@[pc as int]@);
        }
        let cmd = &self.sections[cur].commands[pc];
        match cmd {
            Command::Move(name, e) => {
                let name = name.clone();
                let e = e.clone();
                let v = match crate::value::parse_expr(e.as_str(), self) {
                    Result::Ok(v) => v,
                    Result::Err(er) => {
                        return Result::Err(er);
                    },
                };
                match self.find_var(name.as_str()) {
                    Option::None => {
                        proof {
                            lemma_var_index(m0.vars, name@);
                        }
                        Result::Err(Error::UndeclaredVariable)
                    },
                    Option::Some(i) => {
                        proof {
                            lemma_var_index(m0.vars, name@);
                        }
                        let tv = self.vars[i].vtype;
                        if !v.value_type().equals(tv) {
                            Result::Err(Error::TypeMismatchOnAssignment)
                        } else {
                            self.store_value(i, v);
                            self.pc = pc + 1;
                            Result::Ok(StepEvent::Proceeded)
                        }
                    },
                }
            },
            Command::Clear(name) => {
                let name = name.clone();
                match self.find_var(name.as_str()) {
                    Option::None => {
                        proof {
                            lemma_var_index(m0.vars, name@);
                        }
                        Result::Err(Error::UndeclaredVariable)
                    },
                    Option::Some(i) => {
                        proof {
                            lemma_var_index(m0.vars, name@);
                        }
                        self.vars.remove(i);
                        self.pc = pc + 1;
                        proof {
                            assert(self@.vars =~= remove_var(m0.vars, name@));
                        }
                        Result::Ok(StepEvent::Proceeded)
                    },
                }
            },
            Command::Decl(name, ty) => {
                let name = name.clone();
                let ty = *ty;
                match self.find_var(name.as_str()) {
                    Option::Some(_) => {
                        proof {
                            lemma_var_index(m0.vars, name@);
                        }
                        Result::Err(Error::DuplicateDeclaration)
                    },
                    Option::None => {
                        self.vars.push(Variable { name, vtype: ty, value: Option::None });
                        self.pc = pc + 1;
                        proof {
                            assert(self@.vars =~= m0.vars.push(
                                VarModel { name: name@, vtype: ty, value: Option::None },
                            ));
                        }
                        Result::Ok(StepEvent::Proceeded)
                    },
                }
            },
            Command::DeclWV(name, ty, e) => {
                let name = name.clone();
                let ty = *ty;
                let e = e.clone();
                match self.find_var(name.as_str()) {
                    Option::Some(_) => {
                        proof {
                            lemma_var_index(m0.vars, name@);
                        }
                        Result::Err(Error::DuplicateDeclaration)
                    },
                    Option::None => {
                        let v = match crate::value::parse_expr(e.as_str(), self) {
                            Result::Ok(v) => v,
                            Result::Err(er) => {
                                return Result::Err(er);
                            },
                        };
                        if !v.value_type().equals(ty) {
                            Result::Err(Error::TypeMismatchOnDeclaration)
                        } else {
                            let ghost vm = v@;
                            self.vars.push(Variable { name, vtype: ty, value: Option::Some(v) });
                            self.pc = pc + 1;
                            proof {
                                assert(self@.vars =~= m0.vars.push(
                                    VarModel { name: name@, vtype: ty, value: Option::Some(vm) },
                                ));
                            }
                            Result::Ok(StepEvent::Proceeded)
                        }
                    },
                }
            },
            Command::Jump(t) => {
                let t = t.clone();
                match self.find_section(t.as_str()) {
                    Option::None => Result::Err(Error::UnknownSection),
                    Option::Some(i) => {
                        proof {
                            lemma_section_index(m0.sections, t@);
                        }
                        self.cur = i;
                        self.pc = 0;
                        self.phase = Phase::Running;
                        Result::Ok(StepEvent::Proceeded)
                    },
                }
            },
            Command::Cmp(e1, e2) => {
                let e1 = e1.clone();
                let e2 = e2.clone();
                let v1 = match crate::value::parse_expr(e1.as_str(), self) {
                    Result::Ok(v) => v,
                    Result::Err(er) => {
                        return Result::Err(er);
                    },
                };
                let v2 = match crate::value::parse_expr(e2.as_str(), self) {
                    Result::Ok(v) => v,
                    Result::Err(er) => {
                        return Result::Err(er);
                    },
                };
                match compare_values(&v1, &v2) {
                    Result::Err(er) => Result::Err(er),
                    Result::Ok(f) => {
                        self.flag = Option::Some(f);
                        self.pc = pc + 1;
                        Result::Ok(StepEvent::Proceeded)
                    },
                }
            },
            Command::CondJump(c, t) => {
                let c = *c;
                let t = t.clone();
                match self.flag {
                    Option::None => Result::Err(Error::MissingComparison),
                    Option::Some(f) => {
                        if cond_holds_exec(c, f) {
                            match self.find_section(t.as_str()) {
                                Option::None => Result::Err(Error::UnknownSection),
                                Option::Some(i) => {
                                    proof {
                                        lemma_section_index(m0.sections, t@);
                                    }
                                    self.cur = i;
                                    self.pc = 0;
                                    self.phase = Phase::Running;
                                    Result::Ok(StepEvent::Proceeded)
                                },
                            }
                        } else {
                            self.pc = pc + 1;
                            Result::Ok(StepEvent::Proceeded)
                        }
                    },
                }
            },
            Command::Print(e) => {
                let e = e.clone();
                match crate::value::parse_expr(e.as_str(), self) {
                    Result::Err(er) => Result::Err(er),
                    Result::Ok(v) => {
                        let text = v.display();
                        self.pc = pc + 1;
                        Result::Ok(StepEvent::Printed(text))
                    },
                }
            },
            Command::Println(e) => {
                let e = e.clone();
                match crate::value::parse_expr(e.as_str(), self) {
                    Result::Err(er) => Result::Err(er),
                    Result::Ok(v) => {
                        let mut text = v.display();
                        crate::text::push_char(&mut text, '\n');
                        self.pc = pc + 1;
                        proof {
                            assert(text@ =~= crate::value::display_spec(v@) + seq!['\n']);
                        }
                        Result::Ok(StepEvent::Printed(text))
                    },
                }
            },
            Command::Quit => {
                self.phase = Phase::Halted;
                Result::Ok(StepEvent::Halted)
            },
            Command::Input(name) => {
                let name = name.clone();
                self.pending = Option::Some(Pending { var: name, target: Option::None });
                self.pc = pc + 1;
                Result::Ok(StepEvent::AwaitInput)
            },
            Command::InputUp(name, t) => {
                let name = name.clone();
                let t = t.clone();
                self.pending = Option::Some(Pending { var: name, target: Option::Some(t) });
                self.pc = pc + 1;
                Result::Ok(StepEvent::AwaitInput)
            },
        }
    }

    /// Merges one source unit's sections into the section table. Loading a
    /// unit that declares the entry section when one source already did —
    /// or a unit declaring it twice — is a configuration error, and the
    /// machine is left unchanged.
    pub fn interpret(&mut self, unit: SourceUnit) -> (r: Result<(), Error>)
        requires
            old(self).wf(),
        ensures
            final(self).wf(),
            ({
                let dup = (section_index(old(self)@.sections, old(self)@.entry) != -1
                    && count_named(unit@, old(self)@.entry) >= 1) || count_named(
                    unit@,
                    old(self)@.entry,
                ) >= 2;
                match r {
                    Result::Ok(_) => !dup && final(self)@ == (EnvModel {
                        sections: old(self)@.sections + unit@,
                        ..old(self)@
                    }),
                    Result::Err(e) => e == Error::DuplicateEntrySection && dup && final(self)@
                        == old(self)@,
                }
            }),
    {
        let have_entry = match self.find_section_owned() {
            Option::Some(_) => true,
            Option::None => false,
        };
        let n = unit.sections.len();
        let mut cnt: usize = 0;
        let mut i: usize = 0;
        proof {
            assert(unit@.take(0) =~= Seq::<SectionModel>::empty());
        }
        while i < n
            invariant
                i <= n,
                cnt <= i,
                n == unit@.len(),
                unit@ == unit.sections.deep_view(),
                self@ == old(self)@,
                cnt as int == count_named(unit@.take(i as int), self@.entry),
            decreases n - i,
        {
            proof {
                assert(unit@.take(i as int + 1).drop_last() =~= unit@.take(i as int));
                assert(unit@.take(i as int + 1).last() == unit@[i as int]);
                assert(unit@[i as int].name == unit.sections@[i as int]@.name);
            }
            if crate::text::str_eq(self.entry.as_str(), unit.sections[i].name.as_str()) {
                cnt += 1;
            }
            i += 1;
        }
        proof {
            assert(unit@.take(n as int) =~= unit@);
        }
        if (have_entry && cnt >= 1) || cnt >= 2 {
            return Result::Err(Error::DuplicateEntrySection);
        }
        let ghost uv = unit@;
        let mut u = unit;
        self.sections.append(&mut u.sections);
        proof {
            assert(self@.sections =~= old(self)@.sections + uv);
        }
        Result::Ok(())
    }

    /// Index of the first section named like the entry section, if any.
    fn find_section_owned(&self) -> (r: Option<usize>)
        ensures
            match r {
                Option::Some(i) => section_index(self@.sections, self@.entry) == i as int,
                Option::None => section_index(self@.sections, self@.entry) == -1,
            },
    {
        let n = self.sections.len();
        let mut i: usize = 0;
        while i < n
            invariant
                i <= n,
                n == self@.sections.len(),
                self@.sections == self.sections.deep_view(),
                forall|j: int| 0 <= j < i ==> self@.sections[j].name != self@.entry,
            decreases n - i,
        {
            proof {
                assert(self@.sections[i as int].name == self.sections@[i as int]@.name);
            }
            if crate::text::str_eq(self.sections[i].name.as_str(), self.entry.as_str()) {
                proof {
                    lemma_section_index(self@.sections, self@.entry);
                }
                return Option::Some(i);
            }
            i += 1;
        }
        proof {
            lemma_section_index(self@.sections, self@.entry);
            if section_index(self@.sections, self@.entry) != -1 {
                assert(false);
            }
        }
        Option::None
    }

    /// Moves the machine from Ready to Running at the start of the entry
    /// section; fails when that section was never loaded.
    pub fn start(&mut self) -> (r: Result<(), Error>)
        requires
            old(self).wf(),
            old(self)@.phase is Ready,
        ensures
            final(self).wf(),
            match r {
                Result::Ok(_) => section_index(old(self)@.sections, old(self)@.entry) != -1
                    && final(self)@ == started(old(self)@),
                Result::Err(e) => e == Error::MissingEntrySection && section_index(
                    old(self)@.sections,
                    old(self)@.entry,
                ) == -1 && final(self)@ == old(self)@,
            },
    {
        match self.find_section_owned() {
            Option::None => Result::Err(Error::MissingEntrySection),
            Option::Some(i) => {
                proof {
                    lemma_section_index(self@.sections, self@.entry);
                }
                self.cur = i;
                self.pc = 0;
                self.phase = Phase::Running;
                Result::Ok(())
            },
        }
    }

    /// Hands the machine the input line it asked for: stores it into the
    /// pending variable as a text value and, for the read-then-jump
    /// variant, transfers control.
    pub fn supply_input(&mut self, line: String) -> (r: Result<(), Error>)
        requires
            old(self).wf(),
            old(self)@.pending is Some,
        ensures
            final(self).wf(),
            match r {
                Result::Ok(_) => supply_spec(old(self)@, line@) == Result::<EnvModel, Error>::Ok(
                    final(self)@,
                ) && final(self)@.pending is None,
                Result::Err(e) => supply_spec(old(self)@, line@) == Result::<EnvModel, Error>::Err(
                    e,
                ) && final(self)@ == old(self)@,
            },
    {
        let ghost m0 = self@;
        let (var, target) = match &self.pending {
            Option::Some(p) => {
                let t = match &p.target {
                    Option::Some(t) => Option::Some(t.clone()),
                    Option::None => Option::None,
                };
                (p.var.clone(), t)
            },
            Option::None => {
                proof {
                    assert(false);
                }
                return Result::Err(Error::UndeclaredVariable);
            },
        };
        match self.find_var(var.as_str()) {
            Option::None => {
                proof {
                    lemma_var_index(m0.vars, var@);
                }
                Result::Err(Error::UndeclaredVariable)
            },
            Option::Some(i) => {
                proof {
                    lemma_var_index(m0.vars, var@);
                }
                let tv = self.vars[i].vtype;
                if matches!(tv, ValueType::Number) {
                    return Result::Err(Error::TypeMismatchOnAssignment);
                }
                // resolve the jump target first, so that an unknown section
                // leaves the machine untouched
                let jump_idx: Option<usize> = match &target {
                    Option::None => Option::None,
                    Option::Some(t) => {
                        match self.find_section(t.as_str()) {
                            Option::None => {
                                return Result::Err(Error::UnknownSection);
                            },
                            Option::Some(si) => {
                                proof {
                                    lemma_section_index(m0.sections, t@);
                                }
                                Option::Some(si)
                            },
                        }
                    },
                };
                self.store_value(i, Value::Str(line));
                self.pending = Option::None;
                match jump_idx {
                    Option::None => Result::Ok(()),
                    Option::Some(si) => {
                        self.cur = si;
                        self.pc = 0;
                        self.phase = Phase::Running;
                        Result::Ok(())
                    },
                }
            },
        }
    }

    /// Runs the loaded program from the entry section against a queue of
    /// input lines, collecting everything it prints, for at most
    /// `max_steps` commands (the verifier asks every loop for a bound; a
    /// caller that wants an unbounded run drives `step` itself). The
    /// result — output and final machine — is exactly what the step
    /// machine reaches after some number of driven steps, and the machine
    /// has halted unless the budget ran out first; an error is exactly a
    /// step the machine fails on (every such error is fatal).
    #[verifier::rlimit(100)]
    pub fn start_program(&mut self, inputs: Vec<String>, max_steps: u64) -> (r: Result<
        Vec<String>,
        Error,
    >)
        requires
            old(self).wf(),
            old(self)@.phase is Ready,
        ensures
            final(self).wf(),
            r matches Result::Ok(outs) ==> section_index(old(self)@.sections, old(self)@.entry)
                != -1,
            r matches Result::Ok(outs) ==> run_outcome_ok(
                old(self)@,
                inputs.deep_view(),
                final(self)@,
                outs.deep_view(),
                max_steps as nat,
            ),
            r matches Result::Err(e) ==> {
                ||| (e == Error::MissingEntrySection && section_index(
                    old(self)@.sections,
                    old(self)@.entry,
                ) == -1 && final(self)@ == old(self)@)
                ||| run_outcome_err(old(self)@, inputs.deep_view(), e)
            },
    {
        match self.start() {
            Result::Err(e) => {
                return Result::Err(e);
            },
            Result::Ok(_) => {},
        }
        let ghost mm0 = start_machine(old(self)@, inputs.deep_view());
        let mut outs: Vec<String> = Vec::new();
        let mut in_i: usize = 0;
        let mut st: u64 = 0;
        let ghost mut k: nat = 0;
        proof {
            assert(outs.deep_view() =~= Seq::<Seq<char>>::empty());
            assert(inputs.deep_view().skip(0) =~= inputs.deep_view());
            assert(mm0 == MachineModel {
                env: self@,
                outs: outs.deep_view(),
                ins: inputs.deep_view().skip(in_i as int),
            });
        }
        while st < max_steps
            invariant
                self.wf(),
                !(self@.phase is Ready),
                self@.pending is None,
                in_i <= inputs.len(),
                st <= max_steps,
                k == st as nat,
                mm0 == start_machine(old(self)@, inputs.deep_view()),
                section_index(old(self)@.sections, old(self)@.entry) != -1,
                inputs@.len() == inputs.deep_view().len(),
                run_steps(mm0, k) == Result::<MachineModel, Error>::Ok(
                    (MachineModel {
                        env: self@,
                        outs: outs.deep_view(),
                        ins: inputs.deep_view().skip(in_i as int),
                    }),
                ),
            decreases max_steps - st,
        {
            if matches!(self.phase, Phase::Halted) {
                proof {
                    assert(run_reaches(mm0, self@, outs.deep_view(), k));
                    assert(run_outcome_ok(
                        old(self)@,
                        inputs.deep_view(),
                        self@,
                        outs.deep_view(),
                        max_steps as nat,
                    ));
                }
                return Result::Ok(outs);
            }
            let ghost mm_pre = MachineModel {
                env: self@,
                outs: outs.deep_view(),
                ins: inputs.deep_view().skip(in_i as int),
            };
            let ev = match self.step() {
                Result::Ok(ev) => ev,
                Result::Err(e) => {
                    proof {
                        assert(machine_step(mm_pre) == Result::<MachineModel, Error>::Err(e));
                        assert(run_fails(mm0, e, k + 1));
                        assert(run_outcome_err(old(self)@, inputs.deep_view(), e));
                    }
                    return Result::Err(e);
                },
            };
            match ev {
                StepEvent::Proceeded => {
                    proof {
                        assert(machine_step(mm_pre) == Result::<MachineModel, Error>::Ok(
                            (MachineModel { env: self@, ..mm_pre }),
                        ));
                        k = k + 1;
                    }
                },
                StepEvent::Halted => {
                    proof {
                        assert(machine_step(mm_pre) == Result::<MachineModel, Error>::Ok(
                            (MachineModel { env: self@, ..mm_pre }),
                        ));
                        k = k + 1;
                    }
                },
                StepEvent::Printed(t) => {
                    let ghost pre_outs = outs.deep_view();
                    outs.push(t);
                    proof {
                        assert(outs.deep_view() =~= pre_outs.push(t@));
                        assert(machine_step(mm_pre) == Result::<MachineModel, Error>::Ok(
                            (MachineModel { env: self@, outs: outs.deep_view(), ..mm_pre }),
                        ));
                        k = k + 1;
                    }
                },
                StepEvent::AwaitInput => {
                    let ghost mid = self@;
                    let ghost pre_ins = inputs.deep_view().skip(in_i as int);
                    let line = if in_i < inputs.len() {
                        let l = inputs[in_i].clone();
                        in_i += 1;
                        proof {
                            assert(pre_ins[0] == inputs.deep_view()[in_i as int - 1]);
                            assert(pre_ins.drop_first() =~= inputs.deep_view().skip(in_i as int));
                        }
                        l
                    } else {
                        let l = String::new();
                        proof {
                            assert(pre_ins =~= Seq::<Seq<char>>::empty());
                            assert(l@ =~= Seq::<char>::empty());
                        }
                        l
                    };
                    match self.supply_input(line) {
                        Result::Ok(_) => {
                            proof {
                                assert(machine_step(mm_pre) == Result::<MachineModel, Error>::Ok(
                                    (MachineModel {
                                        env: self@,
                                        outs: outs.deep_view(),
                                        ins: inputs.deep_view().skip(in_i as int),
                                    }),
                                ));
                                k = k + 1;
                            }
                        },
                        Result::Err(e) => {
                            proof {
                                assert(machine_step(mm_pre) == Result::<MachineModel, Error>::Err(
                                    e,
                                ));
                                assert(run_fails(mm0, e, k + 1));
                                assert(run_outcome_err(old(self)@, inputs.deep_view(), e));
                            }
                            return Result::Err(e);
                        },
                    }
                },
            }
            st += 1;
        }
        // the budget of steps ran out
        proof {
            assert(run_reaches(mm0, self@, outs.deep_view(), k));
            assert(run_outcome_ok(
                old(self)@,
                inputs.deep_view(),
                self@,
                outs.deep_view(),
                max_steps as nat,
            ));
        }
        Result::Ok(outs)
    }
}

// ---------------------------------------------------------------------------
// Laws of the dispatcher
// ---------------------------------------------------------------------------
/// Law: a compare command sets the comparison flag by numeric order of its
/// two number operands — Equal exactly when they are equal — and only
/// advances the program counter.
pub proof fn lemma_compare_sets_flag(m: EnvModel, e1: Seq<char>, e2: Seq<char>, a: int, b: int)
    requires
        crate::value::parse_expr_spec(e1, m.vars) == Result::<ValueModel, Error>::Ok(
            ValueModel::Number(a),
        ),
        crate::value::parse_expr_spec(e2, m.vars) == Result::<ValueModel, Error>::Ok(
            ValueModel::Number(b),
        ),
    ensures
        cmd_step(m, CommandModel::Cmp(e1, e2)) == Result::<(EnvModel, EventModel), Error>::Ok(
            ((
                EnvModel {
                    flag: Option::Some(
                        if a < b {
                            CmpFlag::Less
                        } else if a == b {
                            CmpFlag::Equal
                        } else {
                            CmpFlag::Greater
                        },
                    ),
                    ..advanced(m)
                },
                EventModel::Proceeded,
            )),
        ),
{
}

/// Law: a conditional jump consults only the flag set by the most recent
/// compare: when the flag fails the predicate it falls through to the next
/// command, when it satisfies it control moves to the start of the target
/// section, and before any compare it is a fatal `MissingComparison`.
pub proof fn lemma_cond_jump(m: EnvModel, c: JumpCond, t: Seq<char>)
    ensures
        m.flag is None ==> cmd_step(m, CommandModel::CondJump(c, t)) == Result::<
            (EnvModel, EventModel),
            Error,
        >::Err(Error::MissingComparison),
        m.flag matches Option::Some(f) && !cond_holds(c, f) ==> cmd_step(
            m,
            CommandModel::CondJump(c, t),
        ) == Result::<(EnvModel, EventModel), Error>::Ok(((advanced(m), EventModel::Proceeded))),
        m.flag matches Option::Some(f) && cond_holds(c, f) && section_index(m.sections, t) != -1
            ==> cmd_step(m, CommandModel::CondJump(c, t)) == Result::<
            (EnvModel, EventModel),
            Error,
        >::Ok(
            ((
                EnvModel {
                    phase: Phase::Running,
                    cur: section_index(m.sections, t),
                    pc: 0,
                    ..m
                },
                EventModel::Proceeded,
            )),
        ),
{
}

/// Law: declaring a name that is already declared fails with
/// `DuplicateDeclaration`, for both declaration forms, and leaves no other
/// outcome possible.
pub proof fn lemma_duplicate_declaration(
    m: EnvModel,
    name: Seq<char>,
    ty: ValueType,
    e: Seq<char>,
)
    requires
        lookup_var(m.vars, name) is Some,
    ensures
        cmd_step(m, CommandModel::Decl(name, ty)) == Result::<(EnvModel, EventModel), Error>::Err(
            Error::DuplicateDeclaration,
        ),
        cmd_step(m, CommandModel::DeclWV(name, ty, e)) == Result::<
            (EnvModel, EventModel),
            Error,
        >::Err(Error::DuplicateDeclaration),
{
}

/// Law: assigning to a name that was never declared fails with
/// `UndeclaredVariable` (once the expression itself evaluates).
pub proof fn lemma_assign_undeclared(m: EnvModel, name: Seq<char>, e: Seq<char>, v: ValueModel)
    requires
        crate::value::parse_expr_spec(e, m.vars) == Result::<ValueModel, Error>::Ok(v),
        lookup_var(m.vars, name) is None,
    ensures
        cmd_step(m, CommandModel::Move(name, e)) == Result::<(EnvModel, EventModel), Error>::Err(
            Error::UndeclaredVariable,
        ),
{
}

/// Law: a quit command halts the machine at once, without touching
/// variables, flag or output.
pub proof fn lemma_quit_halts(m: EnvModel)
    requires
        m.phase is Running,
        0 <= m.cur < m.sections.len(),
        0 <= m.pc < m.sections[m.cur].commands.len(),
        m.sections[m.cur].commands[m.pc] is Quit,
    ensures
        step_spec(m) == Result::<(EnvModel, EventModel), Error>::Ok(
            ((EnvModel { phase: Phase::Halted, ..m }, EventModel::Halted)),
        ),
{
}

/// Law: a halted machine executes nothing further — however many more
/// driven steps pass, its state and its output stay exactly as they were,
/// so commands standing after a quit in the same section never run and
/// never print.
pub proof fn lemma_halted_executes_nothing(mm: MachineModel, k: nat)
    requires
        mm.env.phase is Halted,
    ensures
        run_steps(mm, k) == Result::<MachineModel, Error>::Ok(mm),
    decreases k,
{
    if k > 0 {
        lemma_halted_executes_nothing(mm, (k - 1) as nat);
    }
}

} // verus!
