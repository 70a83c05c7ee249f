//! The stages of a compilation.
use crate::ast::{
    Item, item_views, ItemView, lemma_item_views, lemma_string_string_push,
    lemma_string_string_views, Program, ProgramView, string_string_views,
};
use crate::hir::{HirProgram, HirProgramView};
use crate::lexical::{Fault, lex};
use crate::lowering::{enums_of, intrinsics_used, program_functions, structs_of};
use crate::mir::{MirFnView, MirProgram, MirProgramView};
use crate::mir_program::all_well_built;
use crate::semantic::TypeChecker;
use crate::state::MirBuilder;
use crate::symbol_pool::predefined_texts;
use crate::syntactic::grammar::program;
use crate::syntactic::parser::{Parser, source_words, start};
use crate::text::{Chars, decimal, join2, join5};
use crate::typing::typed_program;
use super::error::{Error, ErrorView};
use super::modules::{label_of, module_label};
use vstd::prelude::*;

verus! {

/// The name that an item defines, if it defines one.
pub open spec fn item_name(item: ItemView) -> Option<Chars> {
    match item {
        ItemView::FnDef(f) => Some(f.name),
        ItemView::StructDef(s) => Some(s.name),
        ItemView::EnumDef(e) => Some(e.name),
        ItemView::ConstDef(c) => Some(c.name),
        ItemView::ModelDef(m) => Some(m.name),
        ItemView::ProtoDef(p) => Some(p.name),
        ItemView::Interface(i) => Some(i.name),
        ItemView::Use(_) => None,
        ItemView::Implement(_) => None,
    }
}

/// What may define a name.
pub trait Named {
    /// The name that is defined.
    spec fn defined_name(&self) -> Option<Chars>;

    /// The name that is defined.
    fn name(&self) -> (r: Option<&str>)
        ensures
            match r {
                Some(s) => self.defined_name() == Some(s@),
                None => self.defined_name() is None,
            },
    ;
}

impl Named for Item {
    open spec fn defined_name(&self) -> Option<Chars> {
        item_name(self.model())
    }

    fn name(&self) -> (r: Option<&str>) {
        match self {
            Item::FnDef(f) => Some(f.name.as_str()),
            Item::StructDef(s) => Some(s.name.as_str()),
            Item::EnumDef(e) => Some(e.name.as_str()),
            Item::ConstDef(c) => Some(c.name.as_str()),
            Item::ModelDef(m) => Some(m.name.as_str()),
            Item::ProtoDef(p) => Some(p.name.as_str()),
            Item::Interface(i) => Some(i.name.as_str()),
            Item::Use(_) => None,
            Item::Implement(_) => None,
        }
    }
}

/// Whether one of the items defines a name.
pub open spec fn defines(items: Seq<ItemView>, name: Chars) -> bool {
    exists|i: int| 0 <= i < items.len() && item_name(#[trigger] items[i]) == Some(name)
}

/// A file that was read, or why it could not be.
#[derive(Debug)]
pub struct SourceFile {
    pub path: String,
    pub name: String,
    pub content: Result<String, String>,
}

/// A `SourceFile` as a mathematical value.
pub struct SourceFileView {
    pub path: Chars,
    pub name: Chars,
    pub content: Result<Chars, Chars>,
}

/// A text that was read, or why it could not be.
pub open spec fn content_of(content: Result<String, String>) -> Result<Chars, Chars> {
    match content {
        Ok(s) => Ok(s@),
        Err(e) => Err(e@),
    }
}

impl View for SourceFile {
    type V = SourceFileView;

    open spec fn view(&self) -> SourceFileView {
        SourceFileView { path: self.path@, name: self.name@, content: content_of(self.content) }
    }
}

/// The directory of the standard library.
#[derive(Debug)]
pub enum Listing {
    /// There is none.
    Missing,
    /// It could not be listed, and why.
    Unreadable(String),
    /// The files, in the order in which they load.
    Files(Vec<SourceFile>),
}

/// A `Listing` as a mathematical value.
pub enum ListingView {
    Missing,
    Unreadable(Chars),
    Files(Seq<SourceFileView>),
}

/// The files of a list.
pub open spec fn files_of(list: Seq<SourceFile>) -> Seq<SourceFileView> {
    Seq::new(list.len(), |i: int| list[i]@)
}

impl View for Listing {
    type V = ListingView;

    open spec fn view(&self) -> ListingView {
        match *self {
            Listing::Missing => ListingView::Missing,
            Listing::Unreadable(e) => ListingView::Unreadable(e@),
            Listing::Files(list) => ListingView::Files(files_of(list@)),
        }
    }
}

/// A lexical fault in words.
pub open spec fn fault_text(f: Fault) -> Chars {
    f.message + " (line "@ + decimal(f.line) + ", column "@ + decimal(f.column) + ")"@
}

/// The program that a source holds, or why it holds none.
pub open spec fn parsed(source: Chars) -> Result<ProgramView, Chars> {
    match lex(source, predefined_texts()).fault {
        Some(f) => Err(fault_text(f)),
        None => program(source_words(source), start()).res,
    }
}

/// The program that a source holds, or why it holds none.
pub fn parse_source(source: &str) -> (r: Result<Program, String>)
    ensures
        match r {
            Ok(p) => parsed(source@) == Ok::<ProgramView, Chars>(p.model()),
            Err(e) => parsed(source@) == Err::<ProgramView, Chars>(e@),
        },
{
    match Parser::from_source(source) {
        Err(e) => Err(e.to_text()),
        Ok(parser) => {
            let mut p = parser;
            p.parse_program()
        },
    }
}

/// The items that were loaded, and where each name was defined.
pub struct Loaded {
    pub items: Seq<ItemView>,
    pub names: Seq<(Chars, Chars)>,
}

/// Where a name was defined.
pub open spec fn defined_in(names: Seq<(Chars, Chars)>, name: Chars) -> Option<Chars>
    decreases names.len(),
{
    if names.len() == 0 {
        None
    } else if names.last().0 == name {
        Some(names.last().1)
    } else {
        defined_in(names.drop_last(), name)
    }
}

/// The names that the first `n` items define, behind those of `names`; each name is
/// defined once.
pub open spec fn names_with(
    names: Seq<(Chars, Chars)>,
    items: Seq<ItemView>,
    n: nat,
    label: Chars,
) -> Result<Seq<(Chars, Chars)>, ErrorView>
    decreases n,
{
    if n == 0 {
        Ok(names)
    } else {
        match names_with(names, items, (n - 1) as nat, label) {
            Err(e) => Err(e),
            Ok(before) => match item_name(items[n - 1]) {
                None => Ok(before),
                Some(name) => match defined_in(before, name) {
                    Some(first) => Err(ErrorView::DuplicateDef { name, first, second: label }),
                    None => Ok(before.push((name, label))),
                },
            },
        }
    }
}

/// What the first `n` files define.
pub open spec fn loaded(files: Seq<SourceFileView>, n: nat) -> Result<Loaded, ErrorView>
    decreases n,
{
    if n == 0 {
        Ok(Loaded { items: Seq::empty(), names: Seq::empty() })
    } else {
        match loaded(files, (n - 1) as nat) {
            Err(e) => Err(e),
            Ok(before) => {
                let file = files[n - 1];
                let label = label_of(file.name);
                match file.content {
                    Err(source) => Err(ErrorView::Io { path: file.path, source }),
                    Ok(text) => match parsed(text) {
                        Err(message) => Err(ErrorView::Parse { file: label, message }),
                        Ok(p) => match names_with(before.names, p.items, p.items.len(), label) {
                            Err(e) => Err(e),
                            Ok(names) => Ok(Loaded { items: before.items + p.items, names }),
                        },
                    },
                }
            },
        }
    }
}

/// The items of the standard library.
pub open spec fn stdlib_items(dir: Chars, listing: ListingView) -> Result<
    Seq<ItemView>,
    ErrorView,
> {
    match listing {
        ListingView::Missing => Err(
            ErrorView::Usage("stdlib source directory not found: "@ + dir),
        ),
        ListingView::Unreadable(source) => Err(ErrorView::Io { path: dir, source }),
        ListingView::Files(files) => match loaded(files, files.len()) {
            Err(e) => Err(e),
            Ok(l) => Ok(l.items),
        },
    }
}

/// The first name that the user's items define, from the `i`-th on, and the
/// standard library defines too.
pub open spec fn clash(stdlib: Seq<ItemView>, user: Seq<ItemView>, i: nat) -> Option<Chars>
    decreases user.len() - i,
{
    if i >= user.len() {
        None
    } else {
        match item_name(user[i as int]) {
            Some(name) => if defines(stdlib, name) {
                Some(name)
            } else {
                clash(stdlib, user, i + 1)
            },
            None => clash(stdlib, user, i + 1),
        }
    }
}

/// The standard library and the user's items as one program.
pub open spec fn merged(stdlib: Seq<ItemView>, user: Seq<ItemView>, file: Chars) -> Result<
    ProgramView,
    ErrorView,
> {
    match clash(stdlib, user, 0) {
        Some(name) => Err(ErrorView::DuplicateDef { name, first: "标准库"@, second: file }),
        None => Ok(ProgramView { items: stdlib + user }),
    }
}

/// The whole program of a compilation: a source and the standard library.
pub open spec fn whole_program(
    filename: Chars,
    source: Result<Chars, Chars>,
    dir: Chars,
    listing: ListingView,
) -> Result<ProgramView, ErrorView> {
    match source {
        Err(source) => Err(ErrorView::Io { path: filename, source }),
        Ok(text) => match stdlib_items(dir, listing) {
            Err(e) => Err(e),
            Ok(items) => match parsed(text) {
                Err(message) => Err(ErrorView::Parse { file: filename, message }),
                Ok(user) => merged(items, user.items, filename),
            },
        },
    }
}

/// Where a name was defined.
#[verifier::spinoff_prover]
fn find_definition(names: &Vec<(String, String)>, name: &str) -> (r: Option<String>)
    ensures
        match r {
            Some(label) => defined_in(string_string_views(names@), name@) == Some(label@),
            None => defined_in(string_string_views(names@), name@) is None,
        },
{
    let ghost all = string_string_views(names@);
    proof {
        lemma_string_string_views(names@);
    }
    let mut i: usize = names.len();
    assert(all.take(i as int) =~= all);
    while i > 0
        invariant
            i <= names.len(),
            all == string_string_views(names@),
            all.len() == names@.len(),
            defined_in(all, name@) == defined_in(all.take(i as int), name@),
        decreases i,
    {
        let ghost prefix = all.take(i as int);
        i = i - 1;
        proof {
            lemma_string_string_views(names@);
            assert(all[i as int] == (names@[i as int].0@, names@[i as int].1@));
            assert(prefix.last() == all[i as int]);
            assert(prefix.drop_last() =~= all.take(i as int));
        }
        if names[i].0.as_str().eq(name) {
            return Some(names[i].1.clone());
        }
    }
    None
}

/// Adds the names of items to those that are defined.
#[verifier::spinoff_prover]
fn add_names(names: &mut Vec<(String, String)>, items: &Vec<Item>, label: &String) -> (r: Result<
    (),
    Error,
>)
    ensures
        ({
            let views = item_views(items@);
            let want = names_with(
                string_string_views(old(names)@),
                views,
                views.len(),
                label@,
            );
            match r {
                Ok(_) => want == Ok::<Seq<(Chars, Chars)>, ErrorView>(
                    string_string_views(final(names)@),
                ),
                Err(e) => want == Err::<Seq<(Chars, Chars)>, ErrorView>(e@),
            }
        }),
{
    let ghost views = item_views(items@);
    let ghost before = string_string_views(names@);
    proof {
        lemma_item_views(items@);
    }
    let mut i: usize = 0;
    while i < items.len()
        invariant
            i <= items.len(),
            views == item_views(items@),
            views.len() == items@.len(),
            before == string_string_views(old(names)@),
            names_with(before, views, i as nat, label@) == Ok::<Seq<(Chars, Chars)>, ErrorView>(
                string_string_views(names@),
            ),
        decreases items.len() - i,
    {
        proof {
            lemma_item_views(items@);
            assert(views[i as int] == items@[i as int].model());
        }
        if let Some(name) = items[i].name() {
            if let Some(first) = find_definition(names, name) {
                let e = Error::DuplicateDef {
                    name: name.to_string(),
                    first,
                    second: label.clone(),
                };
                proof {
                    lemma_names_fail(before, views, i as nat, label@, e@, views.len());
                }
                return Err(e);
            }
            let entry: (String, String) = (name.to_string(), label.clone());
            proof {
                lemma_string_string_push(names@, entry);
            }
            names.push(entry);
        }
        i = i + 1;
    }
    Ok(())
}

/// Where one of the items cannot be added, the items cannot be.
proof fn lemma_names_fail(
    names: Seq<(Chars, Chars)>,
    items: Seq<ItemView>,
    i: nat,
    label: Chars,
    e: ErrorView,
    n: nat,
)
    requires
        i < n,
        names_with(names, items, (i + 1) as nat, label) == Err::<Seq<(Chars, Chars)>, ErrorView>(e),
    ensures
        names_with(names, items, n, label) == Err::<Seq<(Chars, Chars)>, ErrorView>(e),
    decreases n,
{
    if n > i + 1 {
        lemma_names_fail(names, items, i, label, e, (n - 1) as nat);
    }
}

/// Where one of the files cannot be loaded, the files cannot be.
proof fn lemma_loaded_fail(files: Seq<SourceFileView>, i: nat, e: ErrorView, n: nat)
    requires
        i < n,
        loaded(files, (i + 1) as nat) == Err::<Loaded, ErrorView>(e),
    ensures
        loaded(files, n) == Err::<Loaded, ErrorView>(e),
    decreases n,
{
    if n > i + 1 {
        lemma_loaded_fail(files, i, e, (n - 1) as nat);
    }
}

/// Loads the standard library from its files; each name is defined once.
#[verifier::spinoff_prover]
#[verifier::rlimit(30)]
pub fn load_stdlib(dir: &str, listing: Listing) -> (r: Result<Vec<Item>, Error>)
    ensures
        match r {
            Ok(items) => stdlib_items(dir@, listing@) == Ok::<Seq<ItemView>, ErrorView>(
                item_views(items@),
            ),
            Err(e) => stdlib_items(dir@, listing@) == Err::<Seq<ItemView>, ErrorView>(e@),
        },
{
    let files: Vec<SourceFile> = match listing {
        Listing::Missing => {
            return Err(Error::Usage(join2("stdlib source directory not found: ", dir)));
        },
        Listing::Unreadable(source) => {
            return Err(Error::Io { path: dir.to_string(), source });
        },
        Listing::Files(files) => files,
    };
    let ghost views = files_of(files@);
    let mut items: Vec<Item> = Vec::new();
    let mut names: Vec<(String, String)> = Vec::new();
    proof {
        lemma_item_views(items@);
        assert(item_views(items@) =~= Seq::empty());
        lemma_string_string_views(names@);
        assert(string_string_views(names@) =~= Seq::empty());
    }
    let mut i: usize = 0;
    while i < files.len()
        invariant
            i <= files.len(),
            views == files_of(files@),
            listing@ == ListingView::Files(views),
            loaded(views, i as nat) == Ok::<Loaded, ErrorView>(
                (Loaded {
                    items: item_views(items@),
                    names: string_string_views(names@),
                }),
            ),
        decreases files.len() - i,
    {
        let file = &files[i];
        assert(views[i as int] == file@);
        let label = module_label(file.name.as_str());
        let text: &String = match &file.content {
            Err(source) => {
                let e = Error::Io { path: file.path.clone(), source: source.clone() };
                proof {
                    lemma_loaded_fail(views, i as nat, e@, views.len());
                }
                return Err(e);
            },
            Ok(text) => text,
        };
        let mut p = match parse_source(text.as_str()) {
            Err(message) => {
                let e = Error::Parse { file: label, message };
                proof {
                    lemma_loaded_fail(views, i as nat, e@, views.len());
                }
                return Err(e);
            },
            Ok(p) => p,
        };
        assert(p.model().items == item_views(p.items@));
        if let Err(e) = add_names(&mut names, &p.items, &label) {
            proof {
                lemma_loaded_fail(views, i as nat, e@, views.len());
            }
            return Err(e);
        }
        proof {
            lemma_item_views_concat(items@, p.items@);
        }
        items.append(&mut p.items);
        i = i + 1;
    }
    Ok(items)
}

/// The views of two lists, one behind the other.
proof fn lemma_item_views_concat(a: Seq<Item>, b: Seq<Item>)
    ensures
        item_views(a + b) == item_views(a) + item_views(b),
{
    lemma_item_views(a);
    lemma_item_views(b);
    lemma_item_views(a + b);
    assert forall|i: int| 0 <= i < a.len() + b.len() implies item_views(a + b)[i] == (item_views(a)
        + item_views(b))[i] by {
        if i < a.len() {
            assert((a + b)[i] == a[i]);
        } else {
            assert((a + b)[i] == b[i - a.len()]);
        }
    }
    assert(item_views(a + b) =~= item_views(a) + item_views(b));
}

/// Whether one of the items defines a name.
#[verifier::spinoff_prover]
fn is_defined(items: &Vec<Item>, name: &str) -> (r: bool)
    ensures
        r == defines(item_views(items@), name@),
{
    let ghost views = item_views(items@);
    proof {
        lemma_item_views(items@);
    }
    let mut i: usize = 0;
    while i < items.len()
        invariant
            i <= items.len(),
            views == item_views(items@),
            views.len() == items@.len(),
            forall|k: int| 0 <= k < i ==> item_name(#[trigger] views[k]) != Some(name@),
        decreases items.len() - i,
    {
        proof {
            lemma_item_views(items@);
            assert(views[i as int] == items@[i as int].model());
        }
        if let Some(other) = items[i].name() {
            if other.eq(name) {
                return true;
            }
        }
        i = i + 1;
    }
    false
}

/// Puts the user's items behind those of the standard library, unless one of them
/// has a name of the standard library.
#[verifier::spinoff_prover]
pub fn merge_with_conflict_check(
    stdlib_items: Vec<Item>,
    user_items: Vec<Item>,
    user_filename: &str,
) -> (r: Result<Program, Error>)
    ensures
        ({
            let want = merged(
                item_views(stdlib_items@),
                item_views(user_items@),
                user_filename@,
            );
            match r {
                Ok(p) => want == Ok::<ProgramView, ErrorView>(p.model()),
                Err(e) => want == Err::<ProgramView, ErrorView>(e@),
            }
        }),
{
    let ghost stdlib = item_views(stdlib_items@);
    let ghost user = item_views(user_items@);
    proof {
        lemma_item_views(user_items@);
    }
    let mut i: usize = 0;
    while i < user_items.len()
        invariant
            i <= user_items.len(),
            stdlib == item_views(stdlib_items@),
            user == item_views(user_items@),
            user.len() == user_items@.len(),
            clash(stdlib, user, 0) == clash(stdlib, user, i as nat),
        decreases user_items.len() - i,
    {
        proof {
            lemma_item_views(user_items@);
            assert(user[i as int] == user_items@[i as int].model());
        }
        if let Some(name) = user_items[i].name() {
            if is_defined(&stdlib_items, name) {
                return Err(
                    Error::DuplicateDef {
                        name: name.to_string(),
                        first: "标准库".to_string(),
                        second: user_filename.to_string(),
                    },
                );
            }
        }
        i = i + 1;
    }
    proof {
        lemma_item_views_concat(stdlib_items@, user_items@);
    }
    let mut items = stdlib_items;
    let mut rest = user_items;
    items.append(&mut rest);
    Ok(Program { items })
}

/// How far a compilation has come.
#[derive(Clone, Copy, PartialEq, Eq, Structural, Debug)]
pub enum CompilerStage {
    Empty,
    Parsed,
    Typed,
    Elaborated,
    Lowered,
    Cleaned,
    BorrowChecked,
    Optimized,
}

impl CompilerStage {
    /// The name of the stage.
    pub open spec fn text(self) -> Chars {
        match self {
            CompilerStage::Empty => "empty"@,
            CompilerStage::Parsed => "parsed"@,
            CompilerStage::Typed => "typed"@,
            CompilerStage::Elaborated => "elaborated"@,
            CompilerStage::Lowered => "lowered"@,
            CompilerStage::Cleaned => "cleaned"@,
            CompilerStage::BorrowChecked => "borrow_checked"@,
            CompilerStage::Optimized => "optimized"@,
        }
    }

    /// The name of the stage.
    pub fn name(&self) -> (r: &'static str)
        ensures
            r@ == self.text(),
    {
        match self {
            CompilerStage::Empty => "empty",
            CompilerStage::Parsed => "parsed",
            CompilerStage::Typed => "typed",
            CompilerStage::Elaborated => "elaborated",
            CompilerStage::Lowered => "lowered",
            CompilerStage::Cleaned => "cleaned",
            CompilerStage::BorrowChecked => "borrow_checked",
            CompilerStage::Optimized => "optimized",
        }
    }
}

/// What is said of a stage that is called out of order.
pub open spec fn order_error(stage: Chars, required: Chars, actual: Chars) -> ErrorView {
    ErrorView::Usage(
        "阶段顺序错误：无法执行 "@ + stage + "；当前阶段为 "@ + actual + "，需要先完成 "@ + required
            + " （顺序：parse → type_check → elaborate → lower → cleanup → borrow_check → optimize → codegen）"@,
    )
}

/// What is said of a stage that is called out of order.
fn stage_order_error(stage: &str, required: &str, actual: &str) -> (r: Error)
    ensures
        r@ == order_error(stage@, required@, actual@),
{
    let front = join5(
        "阶段顺序错误：无法执行 ",
        stage,
        "；当前阶段为 ",
        actual,
        "，需要先完成 ",
    );
    let back = join2(
        required,
        " （顺序：parse → type_check → elaborate → lower → cleanup → borrow_check → optimize → codegen）",
    );
    let text = join2(front.as_str(), back.as_str());
    assert(text@ =~= order_error(stage@, required@, actual@)->Usage_0);
    Error::Usage(text)
}

/// A compilation, stage by stage.
///
/// A stage runs only where the one before it has succeeded, and a stage that fails
/// leaves everything as it was.
#[derive(Debug)]
pub struct Compiler {
    stage: CompilerStage,
    program: Option<Program>,
    hir: Option<HirProgram>,
    mir: Option<MirProgram>,
}

/// The state of a compilation as a mathematical value.
pub struct CompilerView {
    pub stage: CompilerStage,
    pub program: Option<ProgramView>,
    pub hir: Option<HirProgramView>,
    pub mir: Option<MirProgramView>,
}

impl CompilerView {
    /// Each stage has the products of those before it, and no others.
    pub open spec fn wf(self) -> bool {
        &&& self.program is Some <==> self.stage != CompilerStage::Empty
        &&& self.hir is Some <==> !(self.stage is Empty || self.stage is Parsed)
        &&& self.mir is Some <==> !(self.stage is Empty || self.stage is Parsed || self.stage is Typed
            || self.stage is Elaborated)
    }

    /// A compilation that has not begun.
    pub open spec fn start() -> CompilerView {
        CompilerView { stage: CompilerStage::Empty, program: None, hir: None, mir: None }
    }

    /// What a call of a stage comes to where the one before it is not the last that
    /// succeeded.
    pub open spec fn out_of_order(self, stage: Chars, required: CompilerStage) -> ErrorView {
        order_error(stage, required.text(), self.stage.text())
    }

    /// Begins with a whole program, whatever the compilation had come to.
    pub open spec fn parse(self, whole: Result<ProgramView, ErrorView>) -> Reached {
        match whole {
            Err(e) => Err(e),
            Ok(p) => Ok(
                CompilerView {
                    stage: CompilerStage::Parsed,
                    program: Some(p),
                    hir: None,
                    mir: None,
                },
            ),
        }
    }

    /// Gives the program its types.
    pub open spec fn type_check(self) -> Reached {
        if self.stage is Parsed {
            match typed_program(self.program->Some_0) {
                Err(m) => Err(ErrorView::Type(m)),
                Ok(hir) => Ok(
                    CompilerView { stage: CompilerStage::Typed, hir: Some(hir), ..self },
                ),
            }
        } else {
            Err(self.out_of_order("type_check"@, CompilerStage::Parsed))
        }
    }

    /// Takes what the typed program was elaborated to, or why it could not be.
    pub open spec fn elaborate(self, elaborated: Result<HirProgramView, Chars>) -> Reached {
        if self.stage is Typed {
            match elaborated {
                Err(m) => Err(ErrorView::Elaborate(m)),
                Ok(hir) => Ok(
                    CompilerView { stage: CompilerStage::Elaborated, hir: Some(hir), ..self },
                ),
            }
        } else {
            Err(self.out_of_order("elaborate"@, CompilerStage::Typed))
        }
    }

    /// Lowers the elaborated program, which is lowered to `mir` if it can be.
    pub open spec fn lower(self, mir: MirProgramView) -> Reached {
        if self.stage is Elaborated {
            match program_functions(self.hir->Some_0) {
                Err(m) => Err(ErrorView::Mir(m)),
                Ok(_) => Ok(
                    CompilerView { stage: CompilerStage::Lowered, mir: Some(mir), ..self },
                ),
            }
        } else {
            Err(self.out_of_order("lower"@, CompilerStage::Elaborated))
        }
    }

    /// Takes what the program was cleaned up to.
    pub open spec fn cleanup(self, cleaned: MirProgramView) -> Reached {
        if self.stage is Lowered {
            Ok(CompilerView { stage: CompilerStage::Cleaned, mir: Some(cleaned), ..self })
        } else {
            Err(self.out_of_order("cleanup"@, CompilerStage::Lowered))
        }
    }

    /// Takes the outcome of the check of the borrows.
    pub open spec fn borrow_check(self, checked: Result<(), Chars>) -> Reached {
        if self.stage is Cleaned {
            match checked {
                Err(m) => Err(ErrorView::Borrow(m)),
                Ok(_) => Ok(CompilerView { stage: CompilerStage::BorrowChecked, ..self }),
            }
        } else {
            Err(self.out_of_order("borrow_check"@, CompilerStage::Cleaned))
        }
    }

    /// Takes what the program was optimized to.
    pub open spec fn optimize(self, optimized: MirProgramView) -> Reached {
        if self.stage is BorrowChecked {
            Ok(CompilerView { stage: CompilerStage::Optimized, mir: Some(optimized), ..self })
        } else {
            Err(self.out_of_order("optimize"@, CompilerStage::BorrowChecked))
        }
    }

    /// Takes the code that was generated from the program.
    pub open spec fn codegen(self, code: Chars) -> Result<Chars, ErrorView> {
        if self.stage is Optimized {
            Ok(code)
        } else {
            Err(self.out_of_order("codegen"@, CompilerStage::Optimized))
        }
    }
}

/// What a stage makes of a compilation, or why it fails.
pub type Reached = Result<CompilerView, ErrorView>;

/// Whether a stage came to what it has to: where it fails, nothing has changed.
pub open spec fn reached(r: Result<(), Error>, a: Compiler, b: Compiler, want: Reached) -> bool {
    match want {
        Ok(v) => r is Ok && b@ == v && b@.wf(),
        Err(e) => {
            &&& r matches Err(x)
            &&& x@ == e
            &&& b == a
        },
    }
}

/// What was handed out of a result with a text for its error.
pub open spec fn elaborated_of(r: Result<HirProgram, String>) -> Result<HirProgramView, Chars> {
    match r {
        Ok(h) => Ok(h.model()),
        Err(m) => Err(m@),
    }
}

/// A text, or an error.
pub open spec fn text_of_result(r: Result<String, Error>) -> Result<Chars, ErrorView> {
    match r {
        Ok(s) => Ok(s@),
        Err(e) => Err(e@),
    }
}

/// The outcome of a check with a text for its error.
pub open spec fn checked_of(r: Result<(), String>) -> Result<(), Chars> {
    match r {
        Ok(_) => Ok(()),
        Err(m) => Err(m@),
    }
}

impl View for Compiler {
    type V = CompilerView;

    closed spec fn view(&self) -> CompilerView {
        CompilerView {
            stage: self.stage,
            program: match self.program {
                Some(p) => Some(p.model()),
                None => None,
            },
            hir: match self.hir {
                Some(h) => Some(h.model()),
                None => None,
            },
            mir: match self.mir {
                Some(m) => Some(m.model()),
                None => None,
            },
        }
    }
}

/// Whether a program in the middle representation is the one that a typed program
/// is lowered to.
pub open spec fn is_lowered(hir: HirProgramView, mir: MirProgramView) -> bool {
    &&& program_functions(hir) == Ok::<Seq<MirFnView>, Chars>(mir.fns)
    &&& mir.structs == structs_of(hir.structs)
    &&& mir.enums == enums_of(hir.enums)
    &&& intrinsics_used(mir.intrinsics_used, mir.fns)
    &&& all_well_built(mir.fns)
}

impl Compiler {
    /// A compilation that has not begun.
    pub fn new() -> (r: Compiler)
        ensures
            r@ == CompilerView::start(),
            r@.wf(),
    {
        Compiler { stage: CompilerStage::Empty, program: None, hir: None, mir: None }
    }

    /// Asks that the compilation has come just so far.
    fn require_stage(&self, stage: &str, required: CompilerStage) -> (r: Result<(), Error>)
        ensures
            if self@.stage == required {
                r is Ok
            } else {
                r matches Err(e) && e@ == order_error(stage@, required.text(), self@.stage.text())
            },
    {
        let actual: &str = self.stage.name();
        if self.stage == required {
            Ok(())
        } else {
            Err(stage_order_error(stage, required.name(), actual))
        }
    }

    /// Begins a compilation, whatever the one before has come to: the program of a
    /// source and the standard library, without the products of later stages.
    pub fn parse(
        &mut self,
        filename: &str,
        source: Result<String, String>,
        stdlib_dir: &str,
        listing: Listing,
    ) -> (r: Result<(), Error>)
        ensures
            reached(
                r,
                *old(self),
                *final(self),
                old(self)@.parse(
                    whole_program(filename@, content_of(source), stdlib_dir@, listing@),
                ),
            ),
    {
        let text: String = match source {
            Err(source) => {
                return Err(Error::Io { path: filename.to_string(), source });
            },
            Ok(text) => text,
        };
        let items = match load_stdlib(stdlib_dir, listing) {
            Err(e) => {
                return Err(e);
            },
            Ok(items) => items,
        };
        let user = match parse_source(text.as_str()) {
            Err(message) => {
                return Err(Error::Parse { file: filename.to_string(), message });
            },
            Ok(user) => user,
        };
        assert(user.model().items == item_views(user.items@));
        let program = match merge_with_conflict_check(items, user.items, filename) {
            Err(e) => {
                return Err(e);
            },
            Ok(program) => program,
        };
        self.program = Some(program);
        self.hir = None;
        self.mir = None;
        self.stage = CompilerStage::Parsed;
        Ok(())
    }

    /// Gives the program its types.
    pub fn type_check(&mut self) -> (r: Result<(), Error>)
        requires
            old(self)@.wf(),
        ensures
            reached(r, *old(self), *final(self), old(self)@.type_check()),
    {
        if let Err(e) = self.require_stage("type_check", CompilerStage::Parsed) {
            return Err(e);
        }
        let hir = match &self.program {
            None => {
                return Err(stage_order_error("type_check", "parsed", self.stage.name()));
            },
            Some(program) => {
                let mut checker = TypeChecker::new();
                match checker.check_program(program) {
                    Err(m) => {
                        return Err(Error::Type(m));
                    },
                    Ok(hir) => hir,
                }
            },
        };
        self.hir = Some(hir);
        self.mir = None;
        self.stage = CompilerStage::Typed;
        Ok(())
    }

    /// The typed program that is to be elaborated.
    pub fn elaborate_input(&self) -> (r: Result<&HirProgram, Error>)
        requires
            self@.wf(),
        ensures
            match r {
                Ok(h) => self@.stage is Typed && self@.hir == Some(h.model()),
                Err(e) => !(self@.stage is Typed) && e@ == order_error(
                    "elaborate"@,
                    "typed"@,
                    self@.stage.text(),
                ),
            },
    {
        if let Err(e) = self.require_stage("elaborate", CompilerStage::Typed) {
            return Err(e);
        }
        match &self.hir {
            None => Err(stage_order_error("elaborate", "typed", self.stage.name())),
            Some(h) => Ok(h),
        }
    }

    /// Takes what the typed program was elaborated to, or why it could not be.
    pub fn elaborate(&mut self, elaborated: Result<HirProgram, String>) -> (r: Result<(), Error>)
        requires
            old(self)@.wf(),
        ensures
            reached(
                r,
                *old(self),
                *final(self),
                old(self)@.elaborate(elaborated_of(elaborated)),
            ),
    {
        if let Err(e) = self.require_stage("elaborate", CompilerStage::Typed) {
            return Err(e);
        }
        match elaborated {
            Err(m) => Err(Error::Elaborate(m)),
            Ok(h) => {
                self.hir = Some(h);
                self.mir = None;
                self.stage = CompilerStage::Elaborated;
                Ok(())
            },
        }
    }

    /// Lowers the elaborated program to the middle representation.
    pub fn lower(&mut self) -> (r: Result<(), Error>)
        requires
            old(self)@.wf(),
        ensures
            reached(r, *old(self), *final(self), old(self)@.lower(final(self)@.mir->Some_0)),
            r is Ok ==> is_lowered(old(self)@.hir->Some_0, final(self)@.mir->Some_0),
    {
        if let Err(e) = self.require_stage("lower", CompilerStage::Elaborated) {
            return Err(e);
        }
        let mir = match &self.hir {
            None => {
                return Err(stage_order_error("lower", "elaborated", self.stage.name()));
            },
            Some(hir) => match MirBuilder::build(hir) {
                Err(m) => {
                    return Err(Error::Mir(m));
                },
                Ok(mir) => mir,
            },
        };
        self.mir = Some(mir);
        self.stage = CompilerStage::Lowered;
        Ok(())
    }

    /// The program that is to be cleaned up.
    pub fn cleanup_input(&self) -> (r: Result<&MirProgram, Error>)
        requires
            self@.wf(),
        ensures
            match r {
                Ok(m) => self@.stage is Lowered && self@.mir == Some(m.model()),
                Err(e) => !(self@.stage is Lowered) && e@ == order_error(
                    "cleanup"@,
                    "lowered"@,
                    self@.stage.text(),
                ),
            },
    {
        if let Err(e) = self.require_stage("cleanup", CompilerStage::Lowered) {
            return Err(e);
        }
        match &self.mir {
            None => Err(stage_order_error("cleanup", "lowered", self.stage.name())),
            Some(m) => Ok(m),
        }
    }

    /// Takes what the program was cleaned up to.
    pub fn cleanup(&mut self, cleaned: MirProgram) -> (r: Result<(), Error>)
        requires
            old(self)@.wf(),
        ensures
            reached(r, *old(self), *final(self), old(self)@.cleanup(cleaned.model())),
    {
        if let Err(e) = self.require_stage("cleanup", CompilerStage::Lowered) {
            return Err(e);
        }
        self.mir = Some(cleaned);
        self.stage = CompilerStage::Cleaned;
        Ok(())
    }

    /// The program whose borrows are to be checked.
    pub fn borrow_check_input(&self) -> (r: Result<&MirProgram, Error>)
        requires
            self@.wf(),
        ensures
            match r {
                Ok(m) => self@.stage is Cleaned && self@.mir == Some(m.model()),
                Err(e) => !(self@.stage is Cleaned) && e@ == order_error(
                    "borrow_check"@,
                    "cleaned"@,
                    self@.stage.text(),
                ),
            },
    {
        if let Err(e) = self.require_stage("borrow_check", CompilerStage::Cleaned) {
            return Err(e);
        }
        match &self.mir {
            None => Err(stage_order_error("borrow_check", "cleaned", self.stage.name())),
            Some(m) => Ok(m),
        }
    }

    /// Takes the outcome of the check of the borrows.
    pub fn borrow_check(&mut self, checked: Result<(), String>) -> (r: Result<(), Error>)
        requires
            old(self)@.wf(),
        ensures
            reached(r, *old(self), *final(self), old(self)@.borrow_check(checked_of(checked))),
    {
        if let Err(e) = self.require_stage("borrow_check", CompilerStage::Cleaned) {
            return Err(e);
        }
        match checked {
            Err(m) => Err(Error::Borrow(m)),
            Ok(_) => {
                self.stage = CompilerStage::BorrowChecked;
                Ok(())
            },
        }
    }

    /// The program that is to be optimized.
    pub fn optimize_input(&self) -> (r: Result<&MirProgram, Error>)
        requires
            self@.wf(),
        ensures
            match r {
                Ok(m) => self@.stage is BorrowChecked && self@.mir == Some(m.model()),
                Err(e) => !(self@.stage is BorrowChecked) && e@ == order_error(
                    "optimize"@,
                    "borrow_checked"@,
                    self@.stage.text(),
                ),
            },
    {
        if let Err(e) = self.require_stage("optimize", CompilerStage::BorrowChecked) {
            return Err(e);
        }
        match &self.mir {
            None => Err(stage_order_error("optimize", "borrow_checked", self.stage.name())),
            Some(m) => Ok(m),
        }
    }

    /// Takes what the program was optimized to.
    pub fn optimize(&mut self, optimized: MirProgram) -> (r: Result<(), Error>)
        requires
            old(self)@.wf(),
        ensures
            reached(r, *old(self), *final(self), old(self)@.optimize(optimized.model())),
    {
        if let Err(e) = self.require_stage("optimize", CompilerStage::BorrowChecked) {
            return Err(e);
        }
        self.mir = Some(optimized);
        self.stage = CompilerStage::Optimized;
        Ok(())
    }

    /// The program that code is generated from.
    pub fn codegen_input(&self) -> (r: Result<&MirProgram, Error>)
        requires
            self@.wf(),
        ensures
            match r {
                Ok(m) => self@.stage is Optimized && self@.mir == Some(m.model()),
                Err(e) => !(self@.stage is Optimized) && e@ == order_error(
                    "codegen"@,
                    "optimized"@,
                    self@.stage.text(),
                ),
            },
    {
        if let Err(e) = self.require_stage("codegen", CompilerStage::Optimized) {
            return Err(e);
        }
        match &self.mir {
            None => Err(stage_order_error("codegen", "optimized", self.stage.name())),
            Some(m) => Ok(m),
        }
    }

    /// Takes the code that was generated; the compilation stays as it is.
    pub fn codegen(&self, code: String) -> (r: Result<String, Error>)
        requires
            self@.wf(),
        ensures
            text_of_result(r) == self@.codegen(code@),
    {
        if let Err(e) = self.require_stage("codegen", CompilerStage::Optimized) {
            return Err(e);
        }
        Ok(code)
    }

    /// The whole program.
    pub fn program(&self) -> (r: Option<&Program>)
        ensures
            match r {
                Some(p) => self@.program == Some(p.model()),
                None => self@.program is None,
            },
    {
        self.program.as_ref()
    }

    /// The typed program.
    pub fn hir(&self) -> (r: Option<&HirProgram>)
        ensures
            match r {
                Some(h) => self@.hir == Some(h.model()),
                None => self@.hir is None,
            },
    {
        self.hir.as_ref()
    }

    /// The program in the middle representation.
    pub fn mir(&self) -> (r: Option<&MirProgram>)
        ensures
            match r {
                Some(m) => self@.mir == Some(m.model()),
                None => self@.mir is None,
            },
    {
        self.mir.as_ref()
    }
}

/// What the passes of a compilation were given, and what they gave.
pub struct Passed {
    pub typed: HirProgram,
    pub elaborated: Result<HirProgram, String>,
    pub lowered: MirProgram,
    pub cleaned: MirProgram,
    pub shown: MirProgram,
    pub checked: Result<(), String>,
    pub safe: MirProgram,
    pub optimized: MirProgram,
    pub done: MirProgram,
    pub code: String,
}

/// All stages in their order, from the start on: the generated code, or the error of
/// the first stage that fails. The results of the passes are `elaborated`,
/// `cleaned`, `checked`, `optimized` and `code`, and the program is lowered to
/// `lowered`.
pub open spec fn all_stages(
    whole: Result<ProgramView, ErrorView>,
    elaborated: Result<HirProgramView, Chars>,
    lowered: MirProgramView,
    cleaned: MirProgramView,
    checked: Result<(), Chars>,
    optimized: MirProgramView,
    code: Chars,
) -> Result<Chars, ErrorView> {
    match CompilerView::start().parse(whole) {
        Err(e) => Err(e),
        Ok(c) => match c.type_check() {
            Err(e) => Err(e),
            Ok(c) => match c.elaborate(elaborated) {
                Err(e) => Err(e),
                Ok(c) => match c.lower(lowered) {
                    Err(e) => Err(e),
                    Ok(c) => match c.cleanup(cleaned) {
                        Err(e) => Err(e),
                        Ok(c) => match c.borrow_check(checked) {
                            Err(e) => Err(e),
                            Ok(c) => match c.optimize(optimized) {
                                Err(e) => Err(e),
                                Ok(c) => c.codegen(code),
                            },
                        },
                    },
                },
            },
        },
    }
}

/// All stages with the results that the passes gave.
pub open spec fn stages_with(whole: Result<ProgramView, ErrorView>, p: Passed) -> Result<
    Chars,
    ErrorView,
> {
    all_stages(
        whole,
        elaborated_of(p.elaborated),
        p.lowered.model(),
        p.cleaned.model(),
        checked_of(p.checked),
        p.optimized.model(),
        p.code@,
    )
}

/// Whether each pass that a compilation comes to was given the product of the stage
/// before it, and gave what is said of it.
pub open spec fn passes_gave<
    E: Fn(HirProgram) -> Result<HirProgram, String>,
    C: Fn(MirProgram) -> MirProgram,
    B: Fn(&MirProgram) -> Result<(), String>,
    O: Fn(MirProgram) -> MirProgram,
    G: Fn(&MirProgram) -> String,
>(
    elaborate: E,
    cleanup: C,
    borrow_check: B,
    optimize: O,
    codegen: G,
    whole: Result<ProgramView, ErrorView>,
    p: Passed,
) -> bool {
    whole matches Ok(program) ==> (typed_program(program) matches Ok(hir) ==> {
        &&& p.typed.model() == hir
        &&& call_ensures(elaborate, (p.typed,), p.elaborated)
        &&& p.elaborated matches Ok(h) ==> (program_functions(h.model()) is Ok ==> {
            &&& is_lowered(h.model(), p.lowered.model())
            &&& call_ensures(cleanup, (p.lowered,), p.cleaned)
            &&& p.shown.model() == p.cleaned.model()
            &&& call_ensures(borrow_check, (&p.shown,), p.checked)
            &&& p.checked is Ok ==> {
                &&& p.safe.model() == p.cleaned.model()
                &&& call_ensures(optimize, (p.safe,), p.optimized)
                &&& p.done.model() == p.optimized.model()
                &&& call_ensures(codegen, (&p.done,), p.code)
            }
        })
    })
}

/// Whether a compilation may come to a result: that of all stages, with results that
/// the passes may give.
pub open spec fn compiled<
    E: Fn(HirProgram) -> Result<HirProgram, String>,
    C: Fn(MirProgram) -> MirProgram,
    B: Fn(&MirProgram) -> Result<(), String>,
    O: Fn(MirProgram) -> MirProgram,
    G: Fn(&MirProgram) -> String,
>(
    elaborate: E,
    cleanup: C,
    borrow_check: B,
    optimize: O,
    codegen: G,
    whole: Result<ProgramView, ErrorView>,
    got: Result<Chars, ErrorView>,
) -> bool {
    exists|p: Passed|
        {
            &&& #[trigger] passes_gave(
                elaborate,
                cleanup,
                borrow_check,
                optimize,
                codegen,
                whole,
                p,
            )
            &&& got == stages_with(whole, p)
        }
}

/// The stages in their order, with the passes between them as arguments.
#[verifier::spinoff_prover]
fn run_stages<
    E: Fn(HirProgram) -> Result<HirProgram, String>,
    C: Fn(MirProgram) -> MirProgram,
    B: Fn(&MirProgram) -> Result<(), String>,
    O: Fn(MirProgram) -> MirProgram,
    G: Fn(&MirProgram) -> String,
>(
    filename: &str,
    source: Result<String, String>,
    stdlib_dir: &str,
    listing: Listing,
    elaborate: E,
    cleanup: C,
    borrow_check: B,
    optimize: O,
    codegen: G,
) -> (r: Result<String, Error>)
    requires
        forall|h: HirProgram| call_requires(elaborate, (h,)),
        forall|m: MirProgram| call_requires(cleanup, (m,)),
        forall|m: &MirProgram| call_requires(borrow_check, (m,)),
        forall|m: MirProgram| call_requires(optimize, (m,)),
        forall|m: &MirProgram| call_requires(codegen, (m,)),
    ensures
        compiled(
            elaborate,
            cleanup,
            borrow_check,
            optimize,
            codegen,
            whole_program(filename@, content_of(source), stdlib_dir@, listing@),
            text_of_result(r),
        ),
{
    let ghost whole = whole_program(filename@, content_of(source), stdlib_dir@, listing@);
    let ghost mut p: Passed = arbitrary();
    let mut compiler = Compiler::new();
    if let Err(e) = compiler.parse(filename, source, stdlib_dir, listing) {
        assert(passes_gave(elaborate, cleanup, borrow_check, optimize, codegen, whole, p));
        return Err(e);
    }
    if let Err(e) = compiler.type_check() {
        assert(passes_gave(elaborate, cleanup, borrow_check, optimize, codegen, whole, p));
        return Err(e);
    }
    let typed = match compiler.elaborate_input() {
        Err(e) => {
            return Err(e);
        },
        Ok(h) => h.dup(),
    };
    proof {
        p.typed = typed;
    }
    let elaborated = elaborate(typed);
    proof {
        p.elaborated = elaborated;
    }
    if let Err(e) = compiler.elaborate(elaborated) {
        assert(passes_gave(elaborate, cleanup, borrow_check, optimize, codegen, whole, p));
        return Err(e);
    }
    if let Err(e) = compiler.lower() {
        assert(passes_gave(elaborate, cleanup, borrow_check, optimize, codegen, whole, p));
        return Err(e);
    }
    let lowered = match compiler.cleanup_input() {
        Err(e) => {
            return Err(e);
        },
        Ok(m) => m.dup(),
    };
    proof {
        p.lowered = lowered;
    }
    let cleaned = cleanup(lowered);
    proof {
        p.cleaned = cleaned;
    }
    if let Err(e) = compiler.cleanup(cleaned) {
        return Err(e);
    }
    let checked = match compiler.borrow_check_input() {
        Err(e) => {
            return Err(e);
        },
        Ok(m) => {
            proof {
                p.shown = *m;
            }
            borrow_check(m)
        },
    };
    proof {
        p.checked = checked;
    }
    if let Err(e) = compiler.borrow_check(checked) {
        assert(passes_gave(elaborate, cleanup, borrow_check, optimize, codegen, whole, p));
        return Err(e);
    }
    let safe = match compiler.optimize_input() {
        Err(e) => {
            return Err(e);
        },
        Ok(m) => m.dup(),
    };
    proof {
        p.safe = safe;
    }
    let optimized = optimize(safe);
    proof {
        p.optimized = optimized;
    }
    if let Err(e) = compiler.optimize(optimized) {
        return Err(e);
    }
    let code = match compiler.codegen_input() {
        Err(e) => {
            return Err(e);
        },
        Ok(m) => {
            proof {
                p.done = *m;
            }
            codegen(m)
        },
    };
    proof {
        p.code = code;
        assert(passes_gave(elaborate, cleanup, borrow_check, optimize, codegen, whole, p));
    }
    compiler.codegen(code)
}

/// Whether an error is one of those that a compilation can end in: those of the
/// build and of the run come later.
pub open spec fn of_compilation(e: ErrorView) -> bool {
    !(e is Build) && !(e is Run)
}

proof fn lemma_names_with_error(
    names: Seq<(Chars, Chars)>,
    items: Seq<ItemView>,
    n: nat,
    label: Chars,
)
    ensures
        names_with(names, items, n, label) matches Err(e) ==> of_compilation(e),
    decreases n,
{
    if n > 0 {
        lemma_names_with_error(names, items, (n - 1) as nat, label);
    }
}

proof fn lemma_loaded_error(files: Seq<SourceFileView>, n: nat)
    ensures
        loaded(files, n) matches Err(e) ==> of_compilation(e),
    decreases n,
{
    if n > 0 {
        lemma_loaded_error(files, (n - 1) as nat);
        if let Ok(before) = loaded(files, (n - 1) as nat) {
            if let Ok(text) = files[n - 1].content {
                if let Ok(p) = parsed(text) {
                    lemma_names_with_error(
                        before.names,
                        p.items,
                        p.items.len(),
                        label_of(files[n - 1].name),
                    );
                }
            }
        }
    }
}

/// The stages, called one after the other on a compilation that has not begun, are
/// never out of order. They give the code that was generated where each of them
/// succeeds; else the error of the first that fails, unchanged: that of the whole
/// program, of its types, of its elaboration, of its lowering or of its borrows, in
/// this order. It is never an error of the build or of the run.
pub proof fn stages_give_the_code_or_the_first_error(
    filename: Chars,
    source: Result<Chars, Chars>,
    dir: Chars,
    listing: ListingView,
    elaborated: Result<HirProgramView, Chars>,
    lowered: MirProgramView,
    cleaned: MirProgramView,
    checked: Result<(), Chars>,
    optimized: MirProgramView,
    code: Chars,
)
    ensures
        ({
            let whole = whole_program(filename, source, dir, listing);
            let got = all_stages(whole, elaborated, lowered, cleaned, checked, optimized, code);
            &&& got == (match whole {
                Err(e) => Err(e),
                Ok(program) => match typed_program(program) {
                    Err(m) => Err(ErrorView::Type(m)),
                    Ok(_) => match elaborated {
                        Err(m) => Err(ErrorView::Elaborate(m)),
                        Ok(hir) => match program_functions(hir) {
                            Err(m) => Err(ErrorView::Mir(m)),
                            Ok(_) => match checked {
                                Err(m) => Err(ErrorView::Borrow(m)),
                                Ok(_) => Ok(code),
                            },
                        },
                    },
                },
            })
            &&& got matches Err(e) ==> of_compilation(e)
        }),
{
    if let ListingView::Files(files) = listing {
        lemma_loaded_error(files, files.len());
    }
}

/// A whole compilation: the stages in their order, each on the product of the one
/// before it, with the passes between them as arguments. It gives the generated
/// code, or the error of the first stage that fails, which is never one of the build
/// or of the run.
#[verifier::spinoff_prover]
pub fn compile<
    E: Fn(HirProgram) -> Result<HirProgram, String>,
    C: Fn(MirProgram) -> MirProgram,
    B: Fn(&MirProgram) -> Result<(), String>,
    O: Fn(MirProgram) -> MirProgram,
    G: Fn(&MirProgram) -> String,
>(
    filename: &str,
    source: Result<String, String>,
    stdlib_dir: &str,
    listing: Listing,
    elaborate: E,
    cleanup: C,
    borrow_check: B,
    optimize: O,
    codegen: G,
) -> (r: Result<String, Error>)
    requires
        forall|h: HirProgram| call_requires(elaborate, (h,)),
        forall|m: MirProgram| call_requires(cleanup, (m,)),
        forall|m: &MirProgram| call_requires(borrow_check, (m,)),
        forall|m: MirProgram| call_requires(optimize, (m,)),
        forall|m: &MirProgram| call_requires(codegen, (m,)),
    ensures
        compiled(
            elaborate,
            cleanup,
            borrow_check,
            optimize,
            codegen,
            whole_program(filename@, content_of(source), stdlib_dir@, listing@),
            text_of_result(r),
        ),
        r matches Err(e) ==> of_compilation(e@),
{
    let ghost content = content_of(source);
    let ghost files = listing@;
    let ghost whole = whole_program(filename@, content, stdlib_dir@, files);
    let r = run_stages(
        filename,
        source,
        stdlib_dir,
        listing,
        elaborate,
        cleanup,
        borrow_check,
        optimize,
        codegen,
    );
    proof {
        let got = text_of_result(r);
        let p = choose|p: Passed|
            {
                &&& #[trigger] passes_gave(
                    elaborate,
                    cleanup,
                    borrow_check,
                    optimize,
                    codegen,
                    whole,
                    p,
                )
                &&& got == stages_with(whole, p)
            };
        stages_give_the_code_or_the_first_error(
            filename@,
            content,
            stdlib_dir@,
            files,
            elaborated_of(p.elaborated),
            p.lowered.model(),
            p.cleaned.model(),
            checked_of(p.checked),
            p.optimized.model(),
            p.code@,
        );
    }
    r
}

/// Whether no two of the items define the same name.
pub open spec fn definitions_distinct(items: Seq<ItemView>) -> bool {
    forall|i: int, j: int|
        #![trigger items[i], items[j]]
        0 <= i < j < items.len() && item_name(items[i]) is Some ==> item_name(items[i])
            != item_name(items[j])
}

/// Whether a list holds the names that items define.
pub open spec fn names_hold(names: Seq<(Chars, Chars)>, items: Seq<ItemView>) -> bool {
    forall|i: int|
        0 <= i < items.len() ==> match item_name(#[trigger] items[i]) {
            Some(name) => defined_in(names, name) is Some,
            None => true,
        }
}

/// A name that is found is found in a longer list.
proof fn lemma_defined_push(names: Seq<(Chars, Chars)>, entry: (Chars, Chars), name: Chars)
    ensures
        defined_in(names.push(entry), name) is Some <==> defined_in(names, name) is Some || name
            == entry.0,
{
    assert(names.push(entry).drop_last() =~= names);
}

proof fn lemma_names_with(
    names: Seq<(Chars, Chars)>,
    done: Seq<ItemView>,
    items: Seq<ItemView>,
    n: nat,
    label: Chars,
)
    requires
        n <= items.len(),
        names_hold(names, done),
        definitions_distinct(done),
    ensures
        names_with(names, items, n, label) matches Ok(after) ==> {
            let all = done + items.take(n as int);
            &&& names_hold(after, all)
            &&& definitions_distinct(all)
        },
    decreases n,
{
    if n == 0 {
        assert(done + items.take(0) =~= done);
    } else {
        lemma_names_with(names, done, items, (n - 1) as nat, label);
        if let Ok(after) = names_with(names, items, n, label) {
            let before = names_with(names, items, (n - 1) as nat, label)->Ok_0;
            let prior = done + items.take(n - 1);
            let all = done + items.take(n as int);
            let item = items[n - 1];
            assert(all =~= prior.push(item));
            assert forall|i: int| 0 <= i < all.len() implies match item_name(#[trigger] all[i]) {
                Some(name) => defined_in(after, name) is Some,
                None => true,
            } by {
                if let Some(name) = item_name(all[i]) {
                    if i < prior.len() {
                        assert(all[i] == prior[i]);
                        assert(defined_in(before, name) is Some);
                    }
                    if let Some(last) = item_name(item) {
                        lemma_defined_push(before, (last, label), name);
                    }
                }
            }
            assert forall|i: int, j: int|
                #![trigger all[i], all[j]]
                0 <= i < j < all.len() && item_name(all[i]) is Some implies item_name(all[i])
                != item_name(all[j]) by {
                assert(all[i] == prior[i]);
                if j < prior.len() {
                    assert(all[j] == prior[j]);
                } else {
                    assert(defined_in(before, item_name(all[i])->Some_0) is Some);
                }
            }
        }
    }
}

proof fn lemma_loaded(files: Seq<SourceFileView>, n: nat)
    requires
        n <= files.len(),
    ensures
        loaded(files, n) matches Ok(l) ==> names_hold(l.names, l.items) && definitions_distinct(
            l.items,
        ),
    decreases n,
{
    if n > 0 {
        lemma_loaded(files, (n - 1) as nat);
        if let Ok(l) = loaded(files, n) {
            let before = loaded(files, (n - 1) as nat)->Ok_0;
            let p = parsed(files[n - 1].content->Ok_0)->Ok_0;
            lemma_names_with(
                before.names,
                before.items,
                p.items,
                p.items.len(),
                label_of(files[n - 1].name),
            );
            assert(p.items.take(p.items.len() as int) =~= p.items);
        }
    }
}

/// No two items of a standard library that loads define the same name.
pub proof fn stdlib_definitions_are_distinct(dir: Chars, listing: ListingView)
    ensures
        stdlib_items(dir, listing) matches Ok(items) ==> definitions_distinct(items),
{
    if let ListingView::Files(files) = listing {
        lemma_loaded(files, files.len());
    }
}

proof fn lemma_no_clash(stdlib: Seq<ItemView>, user: Seq<ItemView>, i: nat, j: int)
    requires
        i <= j < user.len(),
        clash(stdlib, user, i) is None,
    ensures
        item_name(user[j]) matches Some(name) ==> !defines(stdlib, name),
    decreases user.len() - i,
{
    if i < j {
        lemma_no_clash(stdlib, user, i + 1, j);
    }
}

/// A program that merges holds the standard library's items and, behind them, the
/// user's, and none of the user's has a name of the standard library; any other is
/// refused for a name that both define.
pub proof fn merging_keeps_all_or_names_a_clash(
    stdlib: Seq<ItemView>,
    user: Seq<ItemView>,
    file: Chars,
)
    ensures
        match merged(stdlib, user, file) {
            Ok(p) => {
                &&& p.items == stdlib + user
                &&& forall|j: int|
                    0 <= j < user.len() ==> match item_name(#[trigger] user[j]) {
                        Some(name) => !defines(stdlib, name),
                        None => true,
                    }
            },
            Err(e) => {
                &&& e matches ErrorView::DuplicateDef { name, first, second }
                &&& second == file
                &&& defines(stdlib, name)
                &&& defines(user, name)
            },
        },
{
    match merged(stdlib, user, file) {
        Ok(p) => {
            assert forall|j: int| 0 <= j < user.len() implies match item_name(#[trigger] user[j]) {
                Some(name) => !defines(stdlib, name),
                None => true,
            } by {
                lemma_no_clash(stdlib, user, 0, j);
            }
        },
        Err(e) => {
            lemma_clash_is_defined(stdlib, user, 0);
        },
    }
}

proof fn lemma_clash_is_defined(stdlib: Seq<ItemView>, user: Seq<ItemView>, i: nat)
    ensures
        clash(stdlib, user, i) matches Some(name) ==> defines(stdlib, name) && defines(user, name),
    decreases user.len() - i,
{
    if i < user.len() {
        lemma_clash_is_defined(stdlib, user, i + 1);
        if clash(stdlib, user, i) is Some {
            assert(item_name(user[i as int]) == item_name(user[i as int]));
        }
    }
}

} // verus!
