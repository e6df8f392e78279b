//! What is known of a module: where it is, what it requests, and what its requests resolve to.
use crate::file_path::{FilePath, PathView};
use crate::span::Span;
use crate::text::same_text;
use vstd::prelude::*;

verus! {

/// A module that a specifier resolves to.
#[derive(Debug)]
pub struct LoadedModule {
    pub specifier: String,
    pub resolved_absolute_path: FilePath,
}

/// A specifier that static imports and exports of the module name, and where they do so.
#[derive(Debug)]
pub struct RequestedModule {
    pub specifier: String,
    pub spans: Vec<Span>,
}

/// The record of one module.
#[derive(Debug)]
pub struct ModuleRecord {
    resolved_absolute_path: FilePath,
    loaded_modules: Vec<LoadedModule>,
    requested_modules: Vec<RequestedModule>,
}

/// What a module record holds.
#[verifier::ext_equal]
pub struct RecordView {
    /// Where the module is.
    pub resolved_absolute_path: PathView,
    /// Where the modules are that specifiers resolve to.
    pub loaded_modules: Map<Seq<char>, PathView>,
    /// The specifiers that the module requests, each once, with the places of the requests.
    pub requested_modules: Seq<(Seq<char>, Seq<Span>)>,
}

/// The modules that specifiers resolve to, where a later entry stands for an earlier one.
pub open spec fn loaded_map(entries: Seq<LoadedModule>) -> Map<Seq<char>, PathView>
    decreases entries.len(),
{
    if entries.len() == 0 {
        Map::empty()
    } else {
        loaded_map(entries.drop_last()).insert(
            entries.last().specifier@,
            entries.last().resolved_absolute_path@,
        )
    }
}

impl View for RequestedModule {
    type V = (Seq<char>, Seq<Span>);

    open spec fn view(&self) -> (Seq<char>, Seq<Span>) {
        (self.specifier@, self.spans@)
    }
}

/// What a list of requests holds.
pub open spec fn requests(entries: Seq<RequestedModule>) -> Seq<(Seq<char>, Seq<Span>)> {
    entries.map_values(|entry: RequestedModule| entry@)
}

impl View for ModuleRecord {
    type V = RecordView;

    closed spec fn view(&self) -> RecordView {
        RecordView {
            resolved_absolute_path: self.resolved_absolute_path@,
            loaded_modules: loaded_map(self.loaded_modules@),
            requested_modules: requests(self.requested_modules@),
        }
    }
}

impl RecordView {
    /// Each specifier is listed once, and each place is a range of the source text.
    pub open spec fn wf(self) -> bool {
        &&& forall|i: int, j: int|
            0 <= i < j < self.requested_modules.len() ==> (#[trigger] self.requested_modules[i]).0
                != (#[trigger] self.requested_modules[j]).0
        &&& forall|i: int, j: int|
            0 <= i < self.requested_modules.len() && 0 <= j < self.requested_modules[i].1.len()
                ==> (#[trigger] self.requested_modules[i].1[j]).wf()
    }

    /// Where the module is that `specifier` resolves to.
    pub open spec fn loaded(self, specifier: Seq<char>) -> Option<PathView> {
        if self.loaded_modules.contains_key(specifier) {
            Some(self.loaded_modules[specifier])
        } else {
            None
        }
    }
}

impl ModuleRecord {
    /// The record of a module that requests nothing.
    pub fn new(resolved_absolute_path: FilePath) -> (record: ModuleRecord)
        ensures
            record@ == (RecordView {
                resolved_absolute_path: resolved_absolute_path@,
                loaded_modules: Map::empty(),
                requested_modules: Seq::empty(),
            }),
            record@.wf(),
    {
        let record = ModuleRecord {
            resolved_absolute_path,
            loaded_modules: Vec::new(),
            requested_modules: Vec::new(),
        };
        assert(record@.requested_modules =~= Seq::empty());
        record
    }

    /// Enters the module that `specifier` resolves to.
    pub fn add_loaded_module(&mut self, specifier: String, resolved_absolute_path: FilePath)
        ensures
            final(self)@ == (RecordView {
                loaded_modules: old(self)@.loaded_modules.insert(
                    specifier@,
                    resolved_absolute_path@,
                ),
                ..old(self)@
            }),
    {
        let ghost before = self.loaded_modules@;
        self.loaded_modules.push(LoadedModule { specifier, resolved_absolute_path });
        assert(self.loaded_modules@.drop_last() =~= before);
    }

    /// Enters a request for `specifier` at `span`.
    pub fn add_requested_module(&mut self, specifier: String, span: Span)
        requires
            old(self)@.wf(),
            span.wf(),
        ensures
            final(self)@.wf(),
            final(self)@ == (RecordView {
                requested_modules: final(self)@.requested_modules,
                ..old(self)@
            }),
            forall|i: int|
                0 <= i < old(self)@.requested_modules.len()
                    && #[trigger] old(self)@.requested_modules[i].0 == specifier@
                    ==> final(self)@.requested_modules == old(self)@.requested_modules.update(
                    i,
                    (specifier@, old(self)@.requested_modules[i].1.push(span)),
                ),
            (forall|i: int|
                0 <= i < old(self)@.requested_modules.len()
                    ==> #[trigger] old(self)@.requested_modules[i].0 != specifier@)
                ==> final(self)@.requested_modules == old(self)@.requested_modules.push(
                (specifier@, seq![span]),
            ),
    {
        let ghost before = self@.requested_modules;
        let mut i: usize = 0;
        while i < self.requested_modules.len()
            invariant
                *self == *old(self),
                self@.wf(),
                span.wf(),
                i <= self.requested_modules@.len(),
                before == self@.requested_modules,
                forall|j: int| 0 <= j < i ==> #[trigger] before[j].0 != specifier@,
            decreases self.requested_modules@.len() - i,
        {
            assert(before[i as int] == self.requested_modules@[i as int]@);
            if same_text(self.requested_modules[i].specifier.as_str(), specifier.as_str()) {
                self.requested_modules[i].spans.push(span);
                proof {
                    let after = self@.requested_modules;
                    assert(old(self)@.requested_modules[i as int].0 == specifier@);
                    assert(after =~= before.update(
                        i as int,
                        (specifier@, before[i as int].1.push(span)),
                    ));
                }
                return ;
            }
            i += 1;
        }
        let mut spans: Vec<Span> = Vec::new();
        spans.push(span);
        self.requested_modules.push(RequestedModule { specifier, spans });
        proof {
            let after = self@.requested_modules;
            assert(spans@ =~= seq![span]);
            assert(after =~= before.push((specifier@, seq![span])));
        }
    }

    /// Where the module is.
    pub fn resolved_absolute_path(&self) -> (path: &FilePath)
        ensures
            path@ == self@.resolved_absolute_path,
    {
        &self.resolved_absolute_path
    }

    /// The specifiers that the module requests.
    pub fn requested_modules(&self) -> (requested: &Vec<RequestedModule>)
        ensures
            requests(requested@) == self@.requested_modules,
    {
        &self.requested_modules
    }

    /// Where the module is that `specifier` resolves to, if that is known.
    pub fn get_loaded_module(&self, specifier: &str) -> (module: Option<&FilePath>)
        ensures
            match module {
                Some(path) => self@.loaded(specifier@) == Some(path@),
                None => self@.loaded(specifier@) is None,
            },
    {
        let mut end: usize = self.loaded_modules.len();
        assert(self.loaded_modules@.take(end as int) =~= self.loaded_modules@);
        while end > 0
            invariant
                end <= self.loaded_modules@.len(),
                self@.loaded_modules.contains_key(specifier@) == loaded_map(
                    self.loaded_modules@.take(end as int),
                ).contains_key(specifier@),
                self@.loaded_modules.contains_key(specifier@) ==> self@.loaded_modules[specifier@]
                    == loaded_map(self.loaded_modules@.take(end as int))[specifier@],
            decreases end,
        {
            assert(self.loaded_modules@.take(end as int).drop_last() =~= self.loaded_modules@.take(
                end - 1,
            ));
            if same_text(self.loaded_modules[end - 1].specifier.as_str(), specifier) {
                return Some(&self.loaded_modules[end - 1].resolved_absolute_path);
            }
            end -= 1;
        }
        None
    }
}

} // verus!
