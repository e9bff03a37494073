use vstd::prelude::*;

verus! {

/// The module name the host functions are imported from.
pub const MODULE: &'static str = "env";

/// The names of the functions the host offers guests for import, in the
/// order they were defined; no name is defined twice.
pub struct ImportFuncs {
    funcs: Vec<String>,
}

impl View for ImportFuncs {
    type V = Seq<Seq<char>>;

    closed spec fn view(&self) -> Seq<Seq<char>> {
        self.funcs@.map_values(|s: String| s@)
    }
}

impl ImportFuncs {
    #[verifier::type_invariant]
    spec fn inv(self) -> bool {
        self@.no_duplicates()
    }

    /// No function is defined yet.
    pub(crate) fn new() -> (s: Self)
        ensures
            s@ == Seq::<Seq<char>>::empty(),
    {
        let s = ImportFuncs { funcs: Vec::new() };
        assert(s@ =~= Seq::<Seq<char>>::empty());
        s
    }

    /// Whether a function of this name is defined.
    pub fn contains(&self, name: &str) -> (r: bool)
        ensures
            r == self@.contains(name@),
    {
        let wanted = name.to_owned();
        let n = self.funcs.len();
        let mut i: usize = 0;
        while i < n
            invariant
                n == self.funcs@.len(),
                wanted@ == name@,
                i <= n,
                forall|j: int| 0 <= j < i ==> self@[j] != name@,
            decreases n - i,
        {
            if self.funcs[i] == wanted {
                assert(self@[i as int] == name@);
                return true;
            }
            i = i + 1;
        }
        proof {
            if self@.contains(name@) {
                let j = choose|j: int| 0 <= j < self@.len() && self@[j] == name@;
                assert(self@[j] != name@);
            }
        }
        false
    }

    /// Defines a function under a name no other function has.
    pub fn define(&mut self, name: &'static str) -> (r: &mut Self)
        requires
            !old(self)@.contains(name@),
        ensures
            r@ == old(self)@.push(name@),
            *final(self) == *final(r),
    {
        proof {
            use_type_invariant(&*self);
        }
        let ghost before = self@;
        let mut funcs: Vec<String> = Vec::new();
        core::mem::swap(&mut funcs, &mut self.funcs);
        funcs.push(name.to_owned());
        proof {
            assert(funcs@.map_values(|s: String| s@) =~= before.push(name@));
            assert forall|a: int, b: int|
                0 <= a < b < before.push(name@).len() implies before.push(name@)[a] != before.push(
                name@,
            )[b] by {
                if b < before.len() {
                    assert(before[a] != before[b]);
                } else {
                    assert(before.contains(before[a]));
                }
            }
        }
        self.funcs = funcs;
        self
    }

    /// The names defined, in the order they were defined.
    pub fn names(&self) -> (r: &Vec<String>)
        ensures
            r@.map_values(|s: String| s@) == self@,
    {
        &self.funcs
    }
}

/// A WebAssembly value type, as a parameter or result of a function.
#[derive(Clone, Copy, Debug, PartialEq, Eq, Structural)]
pub enum WasmValType {
    I32,
    I64,
    F32,
    F64,
}

/// What is recorded of an export: its parameter types, its result types and
/// whether every module must export it.
pub type ExportSig = (Seq<WasmValType>, Seq<WasmValType>, bool);

/// A function a guest module may export for the host to call: its name, its
/// signature and whether every module must export it.
pub struct ExportFunc {
    pub name: String,
    pub params: Vec<WasmValType>,
    pub results: Vec<WasmValType>,
    pub required: bool,
}

impl View for ExportFunc {
    type V = ExportSig;

    open spec fn view(&self) -> ExportSig {
        (self.params@, self.results@, self.required)
    }
}

/// Some entry of `fs` carries the name `k`.
pub open spec fn has_export(fs: Seq<ExportFunc>, k: Seq<char>) -> bool {
    exists|i: int| 0 <= i < fs.len() && (#[trigger] fs[i]).name@ == k
}

/// No two entries of `fs` carry the same name.
pub open spec fn unique_exports(fs: Seq<ExportFunc>) -> bool {
    forall|i: int, j: int|
        0 <= i < fs.len() && 0 <= j < fs.len() && i != j ==> (#[trigger] fs[i]).name@ != (
        #[trigger] fs[j]).name@
}

/// The entry of `fs` that carries the name `k`.
pub open spec fn export_index(fs: Seq<ExportFunc>, k: Seq<char>) -> int {
    choose|i: int| 0 <= i < fs.len() && (#[trigger] fs[i]).name@ == k
}

/// From each name recorded in `fs` to its signature and whether it is
/// required.
pub open spec fn export_map(fs: Seq<ExportFunc>) -> Map<Seq<char>, ExportSig> {
    Map::new(|k: Seq<char>| has_export(fs, k), |k: Seq<char>| fs[export_index(fs, k)]@)
}

proof fn lemma_export_index(fs: Seq<ExportFunc>, k: Seq<char>, i: int)
    requires
        unique_exports(fs),
        0 <= i < fs.len(),
        fs[i].name@ == k,
    ensures
        export_index(fs, k) == i,
{
    let j = export_index(fs, k);
    assert(0 <= j < fs.len() && fs[j].name@ == k);
}

/// Where the entry named `wanted` stands in `fs`, if anywhere.
fn export_position(fs: &Vec<ExportFunc>, wanted: &String) -> (r: Option<usize>)
    ensures
        r matches Some(i) ==> i < fs@.len() && fs@[i as int].name@ == wanted@,
        r is None ==> !has_export(fs@, wanted@),
{
    let n = fs.len();
    let mut i: usize = 0;
    while i < n
        invariant
            n == fs@.len(),
            i <= n,
            forall|j: int| 0 <= j < i ==> (#[trigger] fs@[j]).name@ != wanted@,
        decreases n - i,
    {
        if fs[i].name == *wanted {
            return Some(i);
        }
        i = i + 1;
    }
    None
}

/// The functions a guest module can export, each name once.
pub struct ExportFuncs {
    funcs: Vec<ExportFunc>,
}

impl View for ExportFuncs {
    type V = Map<Seq<char>, ExportSig>;

    closed spec fn view(&self) -> Map<Seq<char>, ExportSig> {
        export_map(self.funcs@)
    }
}

impl ExportFuncs {
    #[verifier::type_invariant]
    spec fn inv(self) -> bool {
        unique_exports(self.funcs@)
    }

    /// No export function is recorded yet.
    pub(crate) fn new() -> (s: Self)
        ensures
            s@ == Map::<Seq<char>, ExportSig>::empty(),
    {
        let s = ExportFuncs { funcs: Vec::new() };
        assert(s@ =~= Map::<Seq<char>, ExportSig>::empty());
        s
    }

    /// The export recorded under this name, if any.
    pub fn lookup(&self, name: &str) -> (r: Option<&ExportFunc>)
        ensures
            r matches Some(f) ==> self@.dom().contains(name@) && f@ == self@[name@] && f.name@
                == name@,
            r is None ==> !self@.dom().contains(name@),
    {
        proof {
            use_type_invariant(self);
        }
        let wanted = name.to_owned();
        match export_position(&self.funcs, &wanted) {
            Some(i) => {
                proof {
                    lemma_export_index(self.funcs@, name@, i as int);
                }
                Some(&self.funcs[i])
            },
            None => None,
        }
    }

    /// Records that a guest may export a function of this name with these
    /// parameter and result types, and whether it must; a name recorded
    /// before takes the new signature and flag.
    pub fn define(
        &mut self,
        name: &'static str,
        params: Vec<WasmValType>,
        results: Vec<WasmValType>,
        required: bool,
    ) -> (r: &mut Self)
        ensures
            r@ == old(self)@.insert(name@, (params@, results@, required)),
            *final(self) == *final(r),
    {
        proof {
            use_type_invariant(&*self);
        }
        let ghost before = self.funcs@;
        let ghost entry: ExportSig = (params@, results@, required);
        let wanted = name.to_owned();
        let mut funcs: Vec<ExportFunc> = Vec::new();
        core::mem::swap(&mut funcs, &mut self.funcs);
        let pos = export_position(&funcs, &wanted);
        let ghost idx: int = match pos {
            Some(i) => i as int,
            None => before.len() as int,
        };
        match pos {
            Some(i) => {
                funcs[i] = ExportFunc { name: wanted, params, results, required };
            },
            None => {
                funcs.push(ExportFunc { name: wanted, params, results, required });
            },
        }
        proof {
            let after = funcs@;
            assert(0 <= idx < after.len() && after[idx].name@ == name@ && after[idx]@ == entry);
            assert(forall|j: int| 0 <= j < after.len() && j != idx ==> after[j] == before[j]);
            assert(unique_exports(after)) by {
                assert forall|a: int, b: int|
                    0 <= a < after.len() && 0 <= b < after.len() && a != b implies (
                    #[trigger] after[a]).name@ != (#[trigger] after[b]).name@ by {
                    if a != idx && b != idx {
                        assert(before[a].name@ != before[b].name@);
                    } else if a == idx {
                        assert(before[b].name@ != name@ || has_export(before, name@));
                    } else {
                        assert(before[a].name@ != name@ || has_export(before, name@));
                    }
                }
            }
            lemma_export_index(after, name@, idx);
            assert forall|k: Seq<char>|
                #[trigger] has_export(after, k) == (has_export(before, k) || k == name@) by {
                if has_export(before, k) {
                    let j = export_index(before, k);
                    if j != idx {
                        assert(after[j].name@ == k);
                    }
                }
                if has_export(after, k) && k != name@ {
                    let j = export_index(after, k);
                    assert(before[j].name@ == k);
                }
            }
            assert forall|k: Seq<char>| has_export(after, k) && k != name@ implies after[export_index(
                after,
                k,
            )]@ == before[export_index(before, k)]@ by {
                let j = export_index(before, k);
                assert(j != idx);
                lemma_export_index(after, k, j);
            }
            assert(export_map(after) =~= export_map(before).insert(name@, entry));
        }
        self.funcs = funcs;
        self
    }
}

} // verus!
