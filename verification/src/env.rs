//! Environments and the interpreter's state.
//!
//! Frames live in an arena inside the [`Runtime`]; a frame is named by its
//! index there, and so is an atom's cell. A frame is added only under a
//! parent that is there already, so its parent has a smaller index than
//! the frame itself; a lookup goes from a frame to parents of ever
//! smaller index, which is what makes it end.

use crate::common::make_mal_list_from_vec;
use crate::common::values_view;
use crate::common::EnvType;
use crate::common::MalData;
use crate::common::Symbol;
use crate::common::Value;
use crate::text::str_eq;
use vstd::hash_map::StringHashMap;
use vstd::prelude::*;

verus! {

/// Model of a frame: its parent and its bindings.
pub struct EnvV {
    pub outer: Option<nat>,
    pub data: Map<Seq<char>, Value>,
}

/// Model of the interpreter's state.
pub struct RuntimeV {
    /// The frames, by handle.
    pub envs: Seq<EnvV>,
    /// The contents of the atoms, by handle.
    pub atoms: Seq<Value>,
    /// The lines printed so far and not yet taken by the host.
    pub output: Seq<Seq<char>>,
    /// The files that the host has made readable, by path.
    pub files: Map<Seq<char>, Seq<char>>,
}

/// A frame: bindings from symbols to values, and the enclosing frame.
pub struct Env {
    outer: Option<EnvType>,
    data: StringHashMap<MalData>,
}

/// The interpreter's state: every frame and every atom that evaluation
/// has created, the output that waits for the host, and the files that
/// the host has handed in.
pub struct Runtime {
    envs: Vec<Env>,
    atoms: Vec<MalData>,
    output: Vec<String>,
    files: StringHashMap<String>,
}

/// The message for a pattern that ends after `&`.
pub open spec fn err_rest_bind() -> Seq<char> {
    "symbol expected for rest bind"@
}

/// The message for arguments that do not fit the parameter pattern.
pub open spec fn err_illegal_binding() -> Seq<char> {
    "illegal binding: parameters and arguments do not match"@
}

/// The message for a frame whose parent is not a frame of the runtime.
pub open spec fn err_no_such_env() -> Seq<char> {
    "environment does not exist"@
}

/// The marker in a parameter pattern after which the rest parameter is
/// named.
pub open spec fn rest_marker() -> Seq<char> {
    seq!['&']
}

/// Binds the parameters from index `i` on to the arguments at the same
/// places, on top of `data`. The name after `&` takes the remaining
/// arguments as a list; names after it are not looked at.
pub open spec fn bind_params(
    data: Map<Seq<char>, Value>,
    binds: Seq<Seq<char>>,
    args: Seq<Value>,
    i: int,
) -> Result<Map<Seq<char>, Value>, Seq<char>>
    decreases binds.len() - i,
{
    if i < 0 || i > args.len() {
        Err(err_illegal_binding())
    } else if i >= binds.len() {
        if i == args.len() {
            Ok(data)
        } else {
            Err(err_illegal_binding())
        }
    } else if binds[i] == rest_marker() {
        if i + 1 < binds.len() {
            Ok(data.insert(binds[i + 1], Value::List(args.subrange(i, args.len() as int))))
        } else {
            Err(err_rest_bind())
        }
    } else if i == args.len() {
        Err(err_illegal_binding())
    } else {
        bind_params(data.insert(binds[i], args[i]), binds, args, i + 1)
    }
}

impl View for Env {
    type V = EnvV;

    closed spec fn view(&self) -> EnvV {
        EnvV {
            outer: match self.outer {
                Some(o) => Some(o as nat),
                None => None,
            },
            data: self.data@.map_values(|v: MalData| v@),
        }
    }
}

impl RuntimeV {
    /// The nearest frame, from `env` outwards, that binds `key`.
    pub open spec fn find(self, env: nat, key: Seq<char>) -> Option<nat>
        decreases env,
    {
        if env >= self.envs.len() {
            None
        } else if self.envs[env as int].data.contains_key(key) {
            Some(env)
        } else {
            match self.envs[env as int].outer {
                Some(o) => if o < env {
                    self.find(o, key)
                } else {
                    None
                },
                None => None,
            }
        }
    }

    /// The value that `key` is bound to, seen from `env`.
    pub open spec fn get(self, env: nat, key: Seq<char>) -> Option<Value> {
        match self.find(env, key) {
            Some(e) => Some(self.envs[e as int].data[key]),
            None => None,
        }
    }

    /// The state after binding `key` to `value` in frame `env`; unchanged
    /// where there is no such frame.
    pub open spec fn set(self, env: nat, key: Seq<char>, value: Value) -> RuntimeV {
        if env < self.envs.len() {
            RuntimeV {
                envs: self.envs.update(
                    env as int,
                    EnvV {
                        outer: self.envs[env as int].outer,
                        data: self.envs[env as int].data.insert(key, value),
                    },
                ),
                ..self
            }
        } else {
            self
        }
    }

    /// Whether `frame` can join this state: its parent, if it has one, is
    /// a frame here.
    pub open spec fn accepts(self, frame: EnvV) -> bool {
        frame.outer matches Some(o) ==> o < self.envs.len()
    }

    /// The outermost frame around `env`: the frame reached by going from
    /// parent to parent.
    pub open spec fn root_of(self, env: nat) -> nat
        decreases env,
    {
        if env >= self.envs.len() {
            env
        } else {
            match self.envs[env as int].outer {
                Some(o) => if o < env {
                    self.root_of(o)
                } else {
                    env
                },
                None => env,
            }
        }
    }

    /// The state with one more frame.
    pub open spec fn add_env(self, frame: EnvV) -> RuntimeV {
        RuntimeV { envs: self.envs.push(frame), ..self }
    }

    /// The state with one more atom.
    pub open spec fn add_atom(self, value: Value) -> RuntimeV {
        RuntimeV { atoms: self.atoms.push(value), ..self }
    }

    /// The state after storing `value` in atom `cell`; unchanged where
    /// there is no such atom.
    pub open spec fn set_atom(self, cell: nat, value: Value) -> RuntimeV {
        if cell < self.atoms.len() {
            RuntimeV { atoms: self.atoms.update(cell as int, value), ..self }
        } else {
            self
        }
    }

    /// The state with one more line of output.
    pub open spec fn print(self, line: Seq<char>) -> RuntimeV {
        RuntimeV { output: self.output.push(line), ..self }
    }

    /// A lookup ends at a frame of the state that binds the key.
    pub proof fn lemma_find(self, env: nat, key: Seq<char>)
        ensures
            self.find(env, key) matches Some(e) ==> e <= env && e < self.envs.len()
                && self.envs[e as int].data.contains_key(key),
        decreases env,
    {
        if env < self.envs.len() && !self.envs[env as int].data.contains_key(key) {
            if let Some(o) = self.envs[env as int].outer {
                if o < env {
                    self.lemma_find(o, key);
                }
            }
        }
    }

    /// Every frame's parent, where it has one, comes before the frame.
    pub open spec fn parents_precede(self) -> bool {
        forall|i: int|
            0 <= i < self.envs.len() ==> ((#[trigger] self.envs[i]).outer matches Some(o) ==> o
                < i)
    }
}

impl View for Runtime {
    type V = RuntimeV;

    closed spec fn view(&self) -> RuntimeV {
        RuntimeV {
            envs: Seq::new(self.envs@.len(), |i: int| self.envs@[i]@),
            atoms: values_view(self.atoms@),
            output: Seq::new(self.output@.len(), |i: int| self.output@[i]@),
            files: self.files@.map_values(|s: String| s@),
        }
    }
}

impl Env {
    /// A frame under `outer` that binds the parameters `binds` to the
    /// arguments `exprs`.
    pub fn new(outer: Option<EnvType>, binds: &[Symbol], exprs: &[MalData]) -> (res: Result<
        Env,
        String,
    >)
        ensures
            match bind_params(Map::empty(), crate::common::names_view(binds@), values_view(exprs@), 0) {
                Ok(data) => res matches Ok(env) && env@ == (EnvV {
                    outer: match outer {
                        Some(o) => Some(o as nat),
                        None => None,
                    },
                    data,
                }),
                Err(msg) => res matches Err(e) && e@ == msg,
            },
    {
        let mut env = Env { outer, data: StringHashMap::new() };
        let ghost names = crate::common::names_view(binds@);
        let ghost args = values_view(exprs@);
        assert(env@.data =~= Map::empty());
        let mut i: usize = 0;
        while i < binds.len()
            invariant
                i <= binds.len(),
                i <= exprs.len(),
                names == crate::common::names_view(binds@),
                args == values_view(exprs@),
                env.outer == outer,
                bind_params(env@.data, names, args, i as int) == bind_params(
                    Map::empty(),
                    names,
                    args,
                    0,
                ),
            decreases binds.len() - i,
        {
            proof {
                reveal_strlit("&");
                assert("&"@ =~= rest_marker());
            }
            assert(names[i as int] == binds@[i as int]@);
            if str_eq(binds[i].as_str(), "&") {
                if i + 1 < binds.len() {
                    let mut rest: Vec<MalData> = Vec::new();
                    let mut j: usize = i;
                    while j < exprs.len()
                        invariant
                            i <= j <= exprs.len(),
                            rest.len() == j - i,
                            values_view(rest@) == values_view(exprs@).subrange(i as int, j as int),
                        decreases exprs.len() - j,
                    {
                        rest.push(exprs[j].clone());
                        assert(values_view(rest@) =~= values_view(exprs@).subrange(
                            i as int,
                            j as int + 1,
                        ));
                        j += 1;
                    }
                    assert(names[i as int + 1] == binds@[i as int + 1]@);
                    env.set(&binds[i + 1], &make_mal_list_from_vec(rest));
                    return Ok(env);
                } else {
                    return Err("symbol expected for rest bind".to_string());
                }
            }
            if i == exprs.len() {
                return Err("illegal binding: parameters and arguments do not match".to_string());
            }
            assert(args[i as int] == exprs@[i as int]@);
            env.set(&binds[i], &exprs[i]);
            i += 1;
        }
        if i == exprs.len() {
            Ok(env)
        } else {
            Err("illegal binding: parameters and arguments do not match".to_string())
        }
    }

    /// Binds `key` to `value` in this frame, replacing an earlier binding.
    pub fn set(&mut self, key: &Symbol, value: &MalData)
        ensures
            final(self)@ == (EnvV {
                outer: old(self)@.outer,
                data: old(self)@.data.insert(key@, value@),
            }),
    {
        let ghost before = self.data@;
        let copy = value.clone();
        self.data.insert(key.clone(), copy);
        assert(self.data@.map_values(|v: MalData| v@) =~= before.map_values(|v: MalData| v@).insert(
            key@,
            value@,
        ));
    }

    /// The nearest frame, from `env` outwards, that binds `key`.
    pub fn find(rt: &Runtime, env: EnvType, key: &str) -> (res: Option<EnvType>)
        ensures
            (match res {
                Some(e) => Some(e as nat),
                None => None,
            }) == rt@.find(env as nat, key@),
    {
        let mut cur = env;
        loop
            invariant
                rt@.find(cur as nat, key@) == rt@.find(env as nat, key@),
            decreases cur,
        {
            if cur >= rt.envs.len() {
                return None;
            }
            if rt.envs[cur].data.contains_key(key) {
                return Some(cur);
            }
            match rt.envs[cur].outer {
                Some(o) => {
                    if o < cur {
                        cur = o;
                    } else {
                        return None;
                    }
                },
                None => {
                    return None;
                },
            }
        }
    }

    /// The value that `key` is bound to, seen from `env`.
    pub fn get(rt: &Runtime, env: EnvType, key: &str) -> (res: Option<MalData>)
        ensures
            (match res {
                Some(v) => Some(v@),
                None => None,
            }) == rt@.get(env as nat, key@),
    {
        proof {
            rt@.lemma_find(env as nat, key@);
        }
        match Env::find(rt, env, key) {
            Some(e) => {
                assert(rt@.envs[e as int] == rt.envs@[e as int]@);
                match rt.envs[e].data.get(key) {
                    Some(v) => Some(v.clone()),
                    None => None,
                }
            },
            None => None,
        }
    }
}

impl Runtime {
    /// The frames and the atoms of a state can be counted by the machine.
    pub proof fn lemma_counts(&self)
        ensures
            self@.envs.len() <= usize::MAX,
            self@.atoms.len() <= usize::MAX,
    {
        assert(self.envs@.len() == self.envs.len());
        assert(self.atoms@.len() == self.atoms.len());
    }

    /// A state without frames, atoms, output or files.
    pub fn new() -> (rt: Runtime)
        ensures
            rt@ == (RuntimeV {
                envs: Seq::empty(),
                atoms: Seq::empty(),
                output: Seq::empty(),
                files: Map::empty(),
            }),
    {
        let rt = Runtime {
            envs: Vec::new(),
            atoms: Vec::new(),
            output: Vec::new(),
            files: StringHashMap::new(),
        };
        assert(rt@.envs =~= Seq::empty());
        assert(rt@.atoms =~= Seq::empty());
        assert(rt@.output =~= Seq::empty());
        assert(rt@.files =~= Map::empty());
        rt
    }

    /// The number of frames.
    pub fn env_count(&self) -> (n: usize)
        ensures
            n == self@.envs.len(),
    {
        self.envs.len()
    }

    /// The outermost frame around `env`.
    pub fn root_of(&self, env: EnvType) -> (res: EnvType)
        ensures
            res == self@.root_of(env as nat),
    {
        let mut cur = env;
        loop
            invariant
                self@.root_of(cur as nat) == self@.root_of(env as nat),
            decreases cur,
        {
            if cur >= self.envs.len() {
                return cur;
            }
            assert(self@.envs[cur as int] == self.envs@[cur as int]@);
            match self.envs[cur].outer {
                Some(o) => {
                    if o < cur {
                        cur = o;
                    } else {
                        return cur;
                    }
                },
                None => {
                    return cur;
                },
            }
        }
    }

    /// The number of atoms.
    pub fn atom_count(&self) -> (n: usize)
        ensures
            n == self@.atoms.len(),
    {
        self.atoms.len()
    }

    /// Binds `key` to `value` in frame `env`. Returns whether there is
    /// such a frame.
    pub fn set(&mut self, env: EnvType, key: &Symbol, value: &MalData) -> (done: bool)
        ensures
            done == (env < old(self)@.envs.len()),
            final(self)@ == old(self)@.set(env as nat, key@, value@),
    {
        if env < self.envs.len() {
            let ghost before = self@;
            self.envs[env].set(key, value);
            assert(self@.envs =~= before.set(env as nat, key@, value@).envs);
            true
        } else {
            false
        }
    }

    /// Stores a new atom and returns its handle.
    pub fn new_atom(&mut self, value: MalData) -> (cell: usize)
        ensures
            cell == old(self)@.atoms.len(),
            final(self)@ == old(self)@.add_atom(value@),
    {
        let ghost before = self@;
        let cell = self.atoms.len();
        self.atoms.push(value);
        assert(self@.atoms =~= before.atoms.push(value@));
        assert(self@.envs =~= before.envs);
        assert(self@.output =~= before.output);
        cell
    }

    /// The contents of atom `cell`.
    pub fn atom_value(&self, cell: usize) -> (res: Option<MalData>)
        ensures
            res is Some == (cell < self@.atoms.len()),
            res matches Some(v) ==> v@ == self@.atoms[cell as int],
    {
        if cell < self.atoms.len() {
            Some(self.atoms[cell].clone())
        } else {
            None
        }
    }

    /// Replaces the contents of atom `cell`. Returns whether there is
    /// such an atom.
    pub fn set_atom(&mut self, cell: usize, value: MalData) -> (done: bool)
        ensures
            done == (cell < old(self)@.atoms.len()),
            final(self)@ == old(self)@.set_atom(cell as nat, value@),
    {
        if cell < self.atoms.len() {
            let ghost before = self@;
            let ghost vv = value@;
            self.atoms[cell] = value;
            assert(self@.atoms =~= before.atoms.update(cell as int, vv));
            assert(self@.envs =~= before.envs);
            assert(self@.output =~= before.output);
            true
        } else {
            false
        }
    }

    /// Adds a line to the output that waits for the host.
    pub fn print(&mut self, line: String)
        ensures
            final(self)@ == old(self)@.print(line@),
    {
        let ghost before = self@;
        self.output.push(line);
        assert(self@.output =~= before.output.push(line@));
        assert(self@.envs =~= before.envs);
        assert(self@.atoms =~= before.atoms);
    }

    /// Hands the waiting output to the host and empties it.
    pub fn take_output(&mut self) -> (lines: Vec<String>)
        ensures
            Seq::new(lines@.len(), |i: int| lines@[i]@) == old(self)@.output,
            final(self)@ == (RuntimeV { output: Seq::empty(), ..old(self)@ }),
    {
        let ghost before = self@;
        let mut lines: Vec<String> = Vec::new();
        std::mem::swap(&mut self.output, &mut lines);
        assert(Seq::new(lines@.len(), |i: int| lines@[i]@) =~= before.output);
        assert(self@.output =~= Seq::empty());
        assert(self@.envs =~= before.envs);
        assert(self@.atoms =~= before.atoms);
        lines
    }

    /// Makes the contents of a file readable under `path`.
    pub fn provide_file(&mut self, path: &str, contents: String)
        ensures
            final(self)@ == (RuntimeV {
                files: old(self)@.files.insert(path@, contents@),
                ..old(self)@
            }),
    {
        let ghost before = self@;
        let ghost held = self.files@;
        self.files.insert(path.to_string(), contents);
        assert(self.files@.map_values(|s: String| s@) =~= held.map_values(|s: String| s@).insert(
            path@,
            contents@,
        ));
        assert(self@.envs =~= before.envs);
        assert(self@.atoms =~= before.atoms);
        assert(self@.output =~= before.output);
    }

    /// The contents of the file under `path`, if the host has provided it.
    pub fn file_contents(&self, path: &str) -> (res: Option<String>)
        ensures
            res is Some == self@.files.contains_key(path@),
            res matches Some(text) ==> text@ == self@.files[path@],
    {
        match self.files.get(path) {
            Some(text) => Some(text.clone()),
            None => None,
        }
    }
}

/// Adds a frame to the state and returns its handle. A frame whose
/// parent is not a frame of the state is refused.
pub fn wrapped_env_type(rt: &mut Runtime, env: Env) -> (res: Result<EnvType, String>)
    ensures
        old(rt)@.accepts(env@) ==> res == Ok::<EnvType, String>(old(rt)@.envs.len() as usize)
            && final(rt)@ == old(rt)@.add_env(env@),
        !old(rt)@.accepts(env@) ==> (res matches Err(e) && e@ == err_no_such_env()) && final(rt)@
            == old(rt)@,
{
    let fits = match env.outer {
        Some(o) => o < rt.envs.len(),
        None => true,
    };
    if !fits {
        return Err("environment does not exist".to_string());
    }
    let ghost before = rt@;
    let handle = rt.envs.len();
    rt.envs.push(env);
    assert(rt@.envs =~= before.envs.push(env@));
    assert(rt@.atoms =~= before.atoms);
    assert(rt@.output =~= before.output);
    Ok(handle)
}

} // verus!
