//! The compiler: which files a program is made of, and what becomes of them.
//!
//! Reading files is left to the caller. [`Compiler::next_step`] says which file is wanted next, and
//! the caller hands its text to [`Compiler::import_module`].

use vstd::prelude::*;
use vstd::string::StrSliceExecFns;

use crate::analyze;
use crate::analyze::ast;
use crate::analyze::ast::parse;
use crate::analyze::ast::parse::{Parsed, ParsedV, Parser};
use crate::analyze::ast::{AstV, FnDef, Item, ItemV, AST};
use crate::analyze::lex;
use crate::analyze::lex::{LexOutcome, Lexer, TokensV};
use crate::analyze::semantics;
use crate::analyze::semantics::types::resolve;
use crate::analyze::semantics::types::resolve::Resolver;
use crate::analyze::semantics::types::TypeId;
use crate::analyze::semantics::Verdict;
use crate::analyze::{Error, ErrorContext, ErrorV, FileId, Span};
use crate::ir::codegen;
use crate::ir::{IrV, IR};
use crate::synthesize::arch::{Assembler, LinkableCode};
use crate::text;

verus! {

/// What reading a file gives.
pub enum Reading {
    /// The tree, and the errors in the file.
    Tree(AstV<ParsedV>, Seq<ErrorV>),
    /// The text cannot be split into tokens.
    Failed,
    /// Reading cannot go on.
    Abort,
}

/// Splits a text into tokens, and makes a tree of them.
pub open spec fn reading(text: Seq<char>, file: FileId) -> Reading {
    if !lex::lexable_len(text) {
        Reading::Abort
    } else {
        match lex::lexing(text, file) {
            LexOutcome::Abort => Reading::Abort,
            LexOutcome::Failed(_) => Reading::Failed,
            LexOutcome::Tokens(toks) => match parse::parsing(
                TokensV { toks, pos: 0 },
                text,
                file,
            ) {
                None => Reading::Abort,
                Some((tree, errs)) => Reading::Tree(tree, errs),
            },
        }
    }
}

/// A file whose modules are being imported.
#[verifier::ext_equal]
pub struct FrameV {
    pub file: FileId,
    /// The path of the module in the file.
    pub path: Seq<char>,
    pub tree: AstV<ParsedV>,
    /// The module that comes next.
    pub next: usize,
}

/// Where importing stands.
#[verifier::ext_equal]
pub struct ImportV {
    /// The trees of the files that are done.
    pub trees: Seq<AstV<ParsedV>>,
    /// The files whose modules are being imported, each imported by the one before it.
    pub frames: Seq<FrameV>,
    /// The errors so far.
    pub errs: Seq<ErrorV>,
}

/// How importing goes on.
pub enum Import {
    /// The file was taken in.
    Opened(ImportV),
    /// The file is in error; what there is to say of it is reported.
    Failed(ImportV),
    /// Importing cannot go on.
    Abort,
}

/// What importing needs, or has come to.
pub enum Step {
    /// The file with the given name beside the file `parent` is wanted. It holds the module with
    /// the given path, which is declared at `span`.
    Read { parent: FileId, file_name: String, module: String, span: Span },
    /// A package is done, with all its modules.
    Done { package: String },
    /// Nothing is being imported.
    Idle,
}

/// What a [`Step`] says.
pub enum StepV {
    Read { parent: FileId, file_name: Seq<char>, module: Seq<char>, span: Span },
    Done { package: Seq<char> },
    Idle,
}

impl View for Step {
    type V = StepV;

    open spec fn view(&self) -> StepV {
        match self {
            Step::Read { parent, file_name, module, span } => StepV::Read {
                parent: *parent,
                file_name: file_name@,
                module: module@,
                span: *span,
            },
            Step::Done { package } => StepV::Done { package: package@ },
            Step::Idle => StepV::Idle,
        }
    }
}

/// The tree of a module under its path.
pub open spec fn mangled(tree: AstV<ParsedV>, path: Seq<char>) -> AstV<ParsedV> {
    AstV {
        mangled_path: Some(path),
        items: tree.items.map_values(|item: ItemV<ParsedV>| ast::mangled_item(path, item)),
        ..tree
    }
}

impl ImportV {
    pub open spec fn start() -> ImportV {
        ImportV { trees: Seq::empty(), frames: Seq::empty(), errs: Seq::empty() }
    }

    pub open spec fn report(self, error: ErrorV) -> ImportV {
        ImportV { errs: self.errs.push(error), ..self }
    }

    pub open spec fn open(self, file: FileId, path: Seq<char>, tree: AstV<ParsedV>) -> ImportV {
        ImportV { frames: self.frames.push(FrameV { file, path, tree, next: 0 }), ..self }
    }

    /// Takes in the main file of a package. It has to say which package it is.
    pub open spec fn with_package(self, source: Option<(FileId, Seq<char>)>, span: Span) -> Import {
        match source {
            None => Import::Failed(
                self.report(
                    ErrorV::at(span).says("failed to import package"@).label(
                        span,
                        "package imported here"@,
                    ),
                ),
            ),
            Some((file, text)) => match reading(text, file) {
                Reading::Abort => Import::Abort,
                Reading::Failed => Import::Failed(self),
                Reading::Tree(tree, errs) => {
                    let st = ImportV { errs: self.errs + errs, ..self };
                    match tree.package {
                        None => Import::Failed(
                            st.report(
                                ErrorV::at(analyze::spanning(file, 0, 1)).says(
                                    "main file needs to contain a package statement"@,
                                ),
                            ),
                        ),
                        Some(package) => Import::Opened(st.open(file, package, tree)),
                    }
                },
            },
        }
    }

    /// Takes in the file of a module.
    pub open spec fn with_module(
        self,
        source: Option<(FileId, Seq<char>)>,
        module: Seq<char>,
        span: Span,
    ) -> Import {
        match source {
            None => Import::Failed(
                self.report(
                    ErrorV::at(span).says("failed to locate module "@ + module).label(
                        span,
                        "module defined here"@,
                    ),
                ),
            ),
            Some((file, text)) => match reading(text, file) {
                Reading::Abort => Import::Abort,
                Reading::Failed => Import::Failed(self),
                Reading::Tree(tree, errs) => Import::Opened(
                    (ImportV { errs: self.errs + errs, ..self }).open(file, module, tree),
                ),
            },
        }
    }

    /// The next module of the file that was opened last. A file that has none left is done: its
    /// tree comes behind those of its modules.
    pub open spec fn next(self) -> (ImportV, StepV)
        decreases self.frames.len(),
    {
        if self.frames.len() == 0 {
            (self, StepV::Idle)
        } else {
            let top = self.frames.last();
            if top.next < top.tree.modules.len() {
                let (name, span) = top.tree.modules[top.next as int];
                (
                    ImportV {
                        frames: self.frames.drop_last().push(
                            FrameV { next: (top.next + 1) as usize, ..top },
                        ),
                        ..self
                    },
                    StepV::Read {
                        parent: top.file,
                        file_name: name + ".bl"@,
                        module: text::path_of(top.path, name),
                        span,
                    },
                )
            } else {
                let rest = ImportV {
                    trees: self.trees.push(mangled(top.tree, top.path)),
                    frames: self.frames.drop_last(),
                    ..self
                };
                if rest.frames.len() == 0 {
                    (rest, StepV::Done { package: top.path })
                } else {
                    rest.next()
                }
            }
        }
    }
}

/// Importing never takes back a tree or an error.
pub proof fn law_import_grows(
    st: ImportV,
    source: Option<(FileId, Seq<char>)>,
    module: Seq<char>,
    span: Span,
)
    ensures
        st.trees.is_prefix_of(st.next().0.trees),
        st.next().0.errs == st.errs,
        st.with_module(source, module, span) matches Import::Opened(n) ==> n.trees == st.trees
            && st.errs.is_prefix_of(n.errs),
        st.with_module(source, module, span) matches Import::Failed(n) ==> n.trees == st.trees
            && st.errs.is_prefix_of(n.errs),
        st.with_package(source, span) matches Import::Opened(n) ==> n.trees == st.trees
            && st.errs.is_prefix_of(n.errs),
        st.with_package(source, span) matches Import::Failed(n) ==> n.trees == st.trees
            && st.errs.is_prefix_of(n.errs),
    decreases st.frames.len(),
{
    if st.frames.len() > 0 {
        let top = st.frames.last();
        if top.next >= top.tree.modules.len() {
            let rest = ImportV {
                trees: st.trees.push(mangled(top.tree, top.path)),
                frames: st.frames.drop_last(),
                ..st
            };
            law_import_grows(rest, source, module, span);
            assert(st.trees.is_prefix_of(rest.trees));
            assert(st.trees.is_prefix_of(st.next().0.trees));
        }
    }
}

/// No file is lost: each file that was taken in is either done, or its modules are still being
/// imported, and a package is done only with all of its files.
pub proof fn law_import_keeps_files(
    st: ImportV,
    source: Option<(FileId, Seq<char>)>,
    module: Seq<char>,
    span: Span,
)
    ensures
        st.next().0.trees.len() + st.next().0.frames.len() == st.trees.len() + st.frames.len(),
        st.next().1 is Done ==> st.next().0.frames.len() == 0,
        st.next().1 is Read ==> st.next().0.frames.len() > 0,
        st.with_module(source, module, span) matches Import::Opened(n) ==> n.frames.len()
            == st.frames.len() + 1,
        st.with_package(source, span) matches Import::Opened(n) ==> n.frames.len()
            == st.frames.len() + 1,
    decreases st.frames.len(),
{
    if st.frames.len() > 0 {
        let top = st.frames.last();
        if top.next >= top.tree.modules.len() {
            let rest = ImportV {
                trees: st.trees.push(mangled(top.tree, top.path)),
                frames: st.frames.drop_last(),
                ..st
            };
            law_import_keeps_files(rest, source, module, span);
        }
    }
}

/// The main function of a package.
pub open spec fn main_path(package: Seq<char>) -> Seq<char> {
    text::path_of(package, "main"@)
}

pub open spec fn is_function(item: ItemV<TypeId>, name: Seq<char>) -> bool {
    item matches ItemV::Function(def) && def.name == name
}

/// Whether there is a function with the given path.
pub open spec fn has_function(items: Seq<ItemV<TypeId>>, name: Seq<char>) -> bool {
    exists|i: int| 0 <= i < items.len() && is_function(#[trigger] items[i], name)
}

/// What becomes of a program.
pub enum Compiled {
    /// The program, and the path of its main function.
    Program(IrV, Seq<char>),
    /// The errors in it.
    Invalid(Seq<ErrorV>),
    /// Compiling cannot go on.
    Abort,
}

/// Resolves and checks the trees of a program and, if there are no errors, turns them into the
/// intermediate representation.
pub open spec fn compiled(
    trees: Seq<AstV<ParsedV>>,
    package: Seq<char>,
    file: FileId,
    errs: Seq<ErrorV>,
) -> Compiled {
    let main_fn = main_path(package);
    match resolve::resolution(trees) {
        None => Compiled::Abort,
        Some((tree, types, found)) => {
            let known = errs + found;
            let all = if has_function(tree.items, main_fn) {
                known
            } else {
                known.push(
                    ErrorV::at(analyze::spanning(file, 0, 1)).says(
                        "package must contain a main function at root level"@,
                    ),
                )
            };
            if all.len() > 0 {
                Compiled::Invalid(all)
            } else {
                match semantics::verdict(tree, types, main_fn) {
                    None => Compiled::Abort,
                    Some(Verdict::Invalid(e)) => Compiled::Invalid(e),
                    Some(Verdict::Valid(tree, types)) => match codegen::generated(tree, types) {
                        None => Compiled::Abort,
                        Some(program) => Compiled::Program(program, main_fn),
                    },
                }
            }
        },
    }
}

/// A program comes out only if nothing was reported, and there is a main function.
pub proof fn law_compiled(
    trees: Seq<AstV<ParsedV>>,
    package: Seq<char>,
    file: FileId,
    errs: Seq<ErrorV>,
)
    ensures
        compiled(trees, package, file, errs) matches Compiled::Program(_, main_fn) ==> {
            &&& errs.len() == 0
            &&& main_fn == main_path(package)
            &&& resolve::resolution(trees) matches Some((tree, _, found))
            &&& found.len() == 0
            &&& has_function(tree.items, main_fn)
        },
        compiled(trees, package, file, errs) matches Compiled::Invalid(e) ==> e.len() > 0
            && errs.is_prefix_of(e),
{
}

struct Frame {
    file: FileId,
    path: String,
    tree: AST<Parsed>,
    next: usize,
}

impl View for Frame {
    type V = FrameV;

    closed spec fn view(&self) -> FrameV {
        FrameV { file: self.file, path: self.path@, tree: self.tree.view(), next: self.next }
    }
}

/// Compiles a program, file by file.
pub struct Compiler {
    err_ctx: ErrorContext,
    trees: Vec<AST<Parsed>>,
    frames: Vec<Frame>,
}

impl View for Compiler {
    type V = ImportV;

    closed spec fn view(&self) -> ImportV {
        ImportV {
            trees: resolve::tree_views(self.trees@),
            frames: self.frames@.map_values(|f: Frame| f@),
            errs: self.err_ctx@,
        }
    }
}

/// Why a file was not taken in.
#[derive(Debug, Clone, Copy, PartialEq, Eq, Structural)]
pub enum Refusal {
    /// The file is in error; what there is to say of it is reported.
    Error,
    /// Compiling cannot go on.
    Abort,
}

/// Splits a text into tokens, and makes a tree of them.
fn read_tree(text: &str, file: FileId, err_ctx: &mut ErrorContext) -> (r: Result<
    AST<Parsed>,
    Refusal,
>)
    ensures
        match reading(text@, file) {
            Reading::Tree(tree, errs) => r is Ok && (r->Ok_0).view() == tree && final(err_ctx)@
                == old(err_ctx)@ + errs,
            Reading::Failed => r == Err::<AST<Parsed>, Refusal>(Refusal::Error) && final(err_ctx)@
                == old(err_ctx)@,
            Reading::Abort => r == Err::<AST<Parsed>, Refusal>(Refusal::Abort) && final(err_ctx)@
                == old(err_ctx)@,
        },
{
    if text.unicode_len() > usize::MAX - 4 {
        return Err(Refusal::Abort);
    }
    match Lexer::try_lex(text, file) {
        None => Err(Refusal::Abort),
        Some(Err(_)) => Err(Refusal::Error),
        Some(Ok(tokens)) => {
            proof {
                let toks = tokens@.toks;
                assert(tokens@ == (TokensV { toks, pos: 0 }));
            }
            match Parser::try_parse(tokens, text, file, err_ctx) {
                None => Err(Refusal::Abort),
                Some(tree) => Ok(tree),
            }
        },
    }
}

/// What is known of a file: its number and its text. There is none if it could not be read.
pub open spec fn source_view(source: Option<(FileId, &str)>) -> Option<(FileId, Seq<char>)> {
    match source {
        Some((file, text)) => Some((file, text@)),
        None => None,
    }
}

impl Compiler {
    pub fn new() -> (r: Compiler)
        ensures
            r@ == ImportV::start(),
    {
        let r = Compiler { err_ctx: ErrorContext::new(), trees: Vec::new(), frames: Vec::new() };
        proof {
            assert(r@ =~= ImportV::start());
        }
        r
    }

    fn open(&mut self, file: FileId, path: String, tree: AST<Parsed>)
        ensures
            final(self)@ == old(self)@.open(file, path@, tree.view()),
    {
        let ghost before = self@;
        let frame = Frame { file, path, tree, next: 0 };
        self.frames.push(frame);
        proof {
            assert(self@ =~= before.open(file, path@, tree.view()));
        }
    }

    /// Takes in the main file of a package that is imported at `import_span`.
    pub fn import_package(
        &mut self,
        source: Option<(FileId, &str)>,
        import_span: Span,
    ) -> (r: Result<(), Refusal>)
        ensures
            match old(self)@.with_package(source_view(source), import_span) {
                Import::Opened(st) => r is Ok && final(self)@ == st,
                Import::Failed(st) => r == Err::<(), Refusal>(Refusal::Error) && final(self)@ == st,
                Import::Abort => r == Err::<(), Refusal>(Refusal::Abort) && final(self)@ == old(
                    self,
                )@,
            },
    {
        let ghost before = self@;
        let (file, text) = match source {
            Some(source) => source,
            None => {
                let error = Error::at(import_span).with_message(
                    "failed to import package",
                ).with_label(import_span, "package imported here");
                self.err_ctx.report(error);
                return Err(Refusal::Error);
            },
        };
        let tree = match read_tree(text, file, &mut self.err_ctx) {
            Ok(tree) => tree,
            Err(refusal) => {
                proof {
                    assert(self@ =~= before);
                }
                return Err(refusal);
            },
        };
        let package = match &tree.package {
            Some(package) => package.as_str().to_owned(),
            None => {
                let error = Error::at(analyze::make_span(file, 0, 1)).with_message(
                    "main file needs to contain a package statement",
                );
                self.err_ctx.report(error);
                return Err(Refusal::Error);
            },
        };
        self.open(file, package, tree);
        Ok(())
    }

    /// Takes in the file of the module with the given path, which is declared at `decl_span`.
    pub fn import_module(
        &mut self,
        source: Option<(FileId, &str)>,
        module: &str,
        decl_span: Span,
    ) -> (r: Result<(), Refusal>)
        ensures
            match old(self)@.with_module(source_view(source), module@, decl_span) {
                Import::Opened(st) => r is Ok && final(self)@ == st,
                Import::Failed(st) => r == Err::<(), Refusal>(Refusal::Error) && final(self)@ == st,
                Import::Abort => r == Err::<(), Refusal>(Refusal::Abort) && final(self)@ == old(
                    self,
                )@,
            },
    {
        let ghost before = self@;
        let (file, text) = match source {
            Some(source) => source,
            None => {
                let message = text::join2("failed to locate module ", module);
                let error = Error::at(decl_span).with_message(message.as_str()).with_label(
                    decl_span,
                    "module defined here",
                );
                self.err_ctx.report(error);
                return Err(Refusal::Error);
            },
        };
        let tree = match read_tree(text, file, &mut self.err_ctx) {
            Ok(tree) => tree,
            Err(refusal) => {
                proof {
                    assert(self@ =~= before);
                }
                return Err(refusal);
            },
        };
        self.open(file, module.to_owned(), tree);
        Ok(())
    }

    /// Which file is wanted next, or which package is done.
    pub fn next_step(&mut self) -> (r: Step)
        ensures
            old(self)@.next() == (final(self)@, r@),
    {
        let ghost start = self@;
        loop
            invariant
                start.next() == self@.next(),
                start == old(self)@,
            decreases self.frames@.len(),
        {
            let ghost before = self@;
            let mut frame = match self.frames.pop() {
                Some(frame) => frame,
                None => {
                    proof {
                        assert(self@ =~= before);
                    }
                    return Step::Idle;
                },
            };
            proof {
                assert(before.frames.last() == frame@);
                assert(self@.frames =~= before.frames.drop_last());
            }
            if frame.next < frame.tree.modules.len() {
                let ghost top = frame@;
                let ghost rest = self@;
                let step = Step::Read {
                    parent: frame.file,
                    file_name: text::join2(frame.tree.modules[frame.next].0.as_str(), ".bl"),
                    module: text::join_path(
                        frame.path.as_str(),
                        frame.tree.modules[frame.next].0.as_str(),
                    ),
                    span: frame.tree.modules[frame.next].1,
                };
                proof {
                    let entry = frame.tree.modules@[frame.next as int];
                    assert(top.tree.modules[top.next as int] == (entry.0@, entry.1));
                }
                frame.next = frame.next + 1;
                self.frames.push(frame);
                proof {
                    let moved = FrameV { next: (top.next + 1) as usize, ..top };
                    assert(self@.frames =~= rest.frames.push(moved));
                    assert(self@ =~= before.next().0);
                }
                return step;
            }
            let Frame { file: _, path, tree, next: _ } = frame;
            let mut tree = tree;
            let ghost whole = tree.view();
            let ghost trees = self@.trees;
            tree.mangle(path.as_str());
            self.trees.push(tree);
            proof {
                assert(self@.trees =~= trees.push(mangled(whole, path@)));
            }
            if self.frames.len() == 0 {
                return Step::Done { package: path };
            }
        }
    }

    /// The errors so far.
    pub fn errors(&mut self) -> (r: &mut ErrorContext)
        ensures
            r@ == old(self)@.errs,
            final(self)@ == (ImportV { errs: final(r)@, ..old(self)@ }),
    {
        &mut self.err_ctx
    }

    /// Compiles the files that were imported. The main function lies in the given package, whose
    /// main file is `file`. What is in error is reported.
    pub fn try_compile<A: Assembler>(&mut self, package: &str, file: FileId) -> (r: Result<
        LinkableCode<A>,
        Refusal,
    >)
        ensures
            match compiled(old(self)@.trees, package@, file, old(self)@.errs) {
                Compiled::Program(program, main_fn) => if A::can_assemble(program, main_fn) {
                    &&& r is Ok
                    &&& (r->Ok_0).assembler().holds(program, main_fn)
                    &&& (r->Ok_0).assembler().code_len() <= usize::MAX
                    &&& final(self)@.errs == old(self)@.errs
                } else {
                    r == Err::<LinkableCode<A>, Refusal>(Refusal::Abort)
                },
                Compiled::Invalid(errs) => r == Err::<LinkableCode<A>, Refusal>(Refusal::Error)
                    && final(self)@.errs == errs,
                Compiled::Abort => r == Err::<LinkableCode<A>, Refusal>(Refusal::Abort),
            },
            final(self)@.trees == old(self)@.trees,
            final(self)@.frames == old(self)@.frames,
    {
        let main_fn = text::join_path(package, "main");
        let (tree, types) = match Resolver::new().try_resolve_and_combine(
            &self.trees,
            &mut self.err_ctx,
        ) {
            Some(r) => r,
            None => {
                return Err(Refusal::Abort);
            },
        };
        if !contains_function(&tree.items, main_fn.as_str()) {
            let error = Error::at(analyze::make_span(file, 0, 1)).with_message(
                "package must contain a main function at root level",
            );
            self.err_ctx.report(error);
        }
        if !self.err_ctx.is_empty() {
            return Err(Refusal::Error);
        }
        match semantics::try_analyze(tree, types, main_fn.as_str()) {
            None => Err(Refusal::Abort),
            Some(Err(errors)) => {
                let ghost found = errors@;
                for error in it: errors.0.into_iter()
                    invariant
                        self.err_ctx@ == found.take(it.index() as int),
                        found == it.seq().map_values(|e: Error| e@),
                        self.trees@ == old(self).trees@,
                        self.frames@ == old(self).frames@,
                {
                    proof {
                        let i = it.index() as int;
                        assert(found.take(i + 1) =~= found.take(i).push(error@));
                    }
                    self.err_ctx.report(error);
                }
                proof {
                    assert(found.take(found.len() as int) =~= found);
                }
                Err(Refusal::Error)
            },
            Some(Ok((tree, analyzer))) => match IR::try_generate(&tree, &analyzer) {
                None => Err(Refusal::Abort),
                Some(program) => match A::try_assemble(program, main_fn.as_str()) {
                    None => Err(Refusal::Abort),
                    Some(code) => Ok(code),
                },
            },
        }
    }
}

fn contains_function(items: &Vec<Item<TypeId>>, name: &str) -> (r: bool)
    ensures
        r == has_function(ast::item_views(items@), name@),
{
    let ghost views = ast::item_views(items@);
    let mut i: usize = 0;
    while i < items.len()
        invariant
            i <= items.len(),
            views == ast::item_views(items@),
            forall|k: int| 0 <= k < i ==> !is_function(#[trigger] views[k], name@),
        decreases items.len() - i,
    {
        proof {
            assert(views[i as int] == items@[i as int].view());
        }
        if let Item::Function(FnDef { name: found, .. }) = &items[i] {
            if text::str_eq(found.as_str(), name) {
                return true;
            }
        }
        i = i + 1;
    }
    false
}

} // verus!
