//! Render-pipeline registry: which textures exist, which programs are
//! installed, and whether a render call is executable.
//!
//! The GPU objects themselves — contexts, compiled programs, framebuffers,
//! imported textures — live with the driver, addressed by the ids kept
//! here. Before a draw, the driver asks [`RenderPipeline::plan_render`] for
//! the render plan: it hands back the program's texture bindings in unit
//! order exactly when every required texture is present and the output
//! buffer has the right size, and refuses otherwise, so a mismatched call
//! never reaches the GPU and leaves the output untouched.

use vstd::prelude::*;

use crate::idmap::lemma_spec_find;
use crate::idmap::lemma_spec_find_same_keys;
use crate::idmap::spec_find;
use crate::idmap::IdMap;

verus! {

/// Failures of the render registry.
#[derive(Clone, Copy, PartialEq, Eq, Structural, Debug)]
pub enum RenderError {
    /// No program is installed under the requested id.
    ProgramNotFound(u64),
    /// The program requires a texture id that no texture is registered
    /// under (the first such id, in binding order).
    TextureNotFound(u64),
    /// The output buffer does not hold exactly three bytes per pixel of the
    /// program's framebuffer.
    OutputSizeMismatch,
}

/// Spec-level image of an installed program.
pub struct ProgramV {
    pub texture_ids: Seq<u64>,
    pub width: u32,
    pub height: u32,
}

/// One installed program: the texture ids it expects bound, one texture
/// unit per entry in order, and its framebuffer size (LED count × row
/// count).
pub struct ProgramInfo {
    texture_ids: Vec<u64>,
    width: u32,
    height: u32,
}

impl View for ProgramInfo {
    type V = ProgramV;

    closed spec fn view(&self) -> ProgramV {
        ProgramV { texture_ids: self.texture_ids@, width: self.width, height: self.height }
    }
}

/// Spec-level image of the registry.
pub struct PipelineV {
    pub textures: Seq<u64>,
    pub programs: Seq<(u64, ProgramV)>,
}

/// The registry of texture ids and installed programs.
pub struct RenderPipeline {
    textures: Vec<u64>,
    programs: IdMap<ProgramInfo>,
}

impl View for RenderPipeline {
    type V = PipelineV;

    closed spec fn view(&self) -> PipelineV {
        PipelineV {
            textures: self.textures@,
            programs: self.programs@.map_values(|p: (u64, ProgramInfo)| (p.0, p.1@)),
        }
    }
}

/// The program's texture bindings and framebuffer size, in executable form.
#[derive(Debug)]
pub struct RenderPlan {
    /// Texture ids in binding order: entry `i` goes to texture unit `i`.
    pub texture_units: Vec<u64>,
    /// Framebuffer width.
    pub width: u32,
    /// Framebuffer height.
    pub height: u32,
}

/// The first of `needed` missing from `present`, in order, if any.
pub open spec fn first_missing(needed: Seq<u64>, present: Seq<u64>) -> Option<u64>
    decreases needed.len(),
{
    if needed.len() == 0 {
        None
    } else if !present.contains(needed[0]) {
        Some(needed[0])
    } else {
        first_missing(needed.drop_first(), present)
    }
}

/// A scan that found every id up to `k` present continues at `k`.
proof fn lemma_first_missing_step(needed: Seq<u64>, present: Seq<u64>, k: int)
    requires
        0 <= k < needed.len(),
        present.contains(needed[k]),
        first_missing(needed, present) == first_missing(needed.skip(k), present),
    ensures
        first_missing(needed, present) == first_missing(needed.skip(k + 1), present),
{
    assert(needed.skip(k).drop_first() =~= needed.skip(k + 1));
    assert(needed.skip(k)[0] == needed[k]);
}

impl RenderPipeline {
    /// Well-formed: program ids are unique.
    pub closed spec fn wf(&self) -> bool {
        self.programs.wf()
    }

    /// An empty registry.
    pub fn new() -> (r: RenderPipeline)
        ensures
            r@.textures == Seq::<u64>::empty(),
            r@.programs == Seq::<(u64, ProgramV)>::empty(),
            r.wf(),
    {
        let r = RenderPipeline { textures: Vec::new(), programs: IdMap::new() };
        proof {
            assert(r@.programs =~= Seq::<(u64, ProgramV)>::empty());
        }
        r
    }

    /// Registers the texture id `tid` (the driver holds the imported
    /// texture under it); registering it again replaces the driver-side
    /// texture and changes nothing here.
    pub fn set_texture(&mut self, tid: u64)
        ensures
            final(self).wf() == old(self).wf(),
            final(self)@.programs == old(self)@.programs,
            final(self)@.textures == (if old(self)@.textures.contains(tid) {
                old(self)@.textures
            } else {
                old(self)@.textures.push(tid)
            }),
    {
        let mut i: usize = 0;
        while i < self.textures.len()
            invariant
                i <= self.textures@.len(),
                forall|j: int| 0 <= j < i ==> self.textures@[j] != tid,
            decreases self.textures@.len() - i,
        {
            if self.textures[i] == tid {
                return ;
            }
            i = i + 1;
        }
        proof {
            assert(!old(self)@.textures.contains(tid));
        }
        self.textures.push(tid);
    }

    /// Installs (or replaces) the program under `sid`: the texture ids it
    /// binds, in unit order, and its framebuffer size.
    pub fn set_shader(&mut self, sid: u64, texture_ids: Vec<u64>, width: u32, height: u32)
        requires
            old(self).wf(),
        ensures
            final(self).wf(),
            final(self)@.textures == old(self)@.textures,
            final(self)@.programs == match spec_find(old(self)@.programs, sid) {
                Some(i) => old(self)@.programs.update(
                    i,
                    (sid, ProgramV { texture_ids: texture_ids@, width, height }),
                ),
                None => old(self)@.programs.push(
                    (sid, ProgramV { texture_ids: texture_ids@, width, height }),
                ),
            },
    {
        proof {
            lemma_pipeline_keys(*self);
            lemma_spec_find_same_keys(self.programs@, self@.programs, sid);
            lemma_spec_find(self.programs@, sid);
        }
        let ghost pre = *self;
        self.programs.insert(sid, ProgramInfo { texture_ids, width, height });
        proof {
            lemma_pipeline_keys(pre);
            lemma_pipeline_keys(*self);
            match spec_find(pre@.programs, sid) {
                Some(i) => {
                    assert(self@.programs =~= pre@.programs.update(
                        i,
                        (sid, ProgramV { texture_ids: texture_ids@, width, height }),
                    ));
                },
                None => {
                    assert(self@.programs =~= pre@.programs.push(
                        (sid, ProgramV { texture_ids: texture_ids@, width, height }),
                    ));
                },
            }
        }
    }

    /// The render plan for program `sid` writing `out_len` output bytes: its
    /// texture bindings in unit order, exactly when the program exists,
    /// every bound texture id is registered, and `out_len` is three bytes
    /// per framebuffer pixel. Otherwise the first failure in that order,
    /// and the driver must not draw — the output stays untouched.
    pub fn plan_render(&self, sid: u64, out_len: usize) -> (r: Result<RenderPlan, RenderError>)
        ensures
            match r {
                Ok(plan) => {
                    &&& spec_find(self@.programs, sid) is Some
                    &&& {
                        let p = self@.programs[spec_find(self@.programs, sid)->Some_0].1;
                        &&& first_missing(p.texture_ids, self@.textures) is None
                        &&& out_len == 3 * p.width * p.height
                        &&& plan.texture_units@ == p.texture_ids
                        &&& plan.width == p.width
                        &&& plan.height == p.height
                    }
                },
                Err(RenderError::ProgramNotFound(p)) => p == sid && spec_find(
                    self@.programs,
                    sid,
                ) is None,
                Err(RenderError::TextureNotFound(t)) => {
                    &&& spec_find(self@.programs, sid) is Some
                    &&& first_missing(
                        self@.programs[spec_find(self@.programs, sid)->Some_0].1.texture_ids,
                        self@.textures,
                    ) == Some(t)
                },
                Err(RenderError::OutputSizeMismatch) => {
                    &&& spec_find(self@.programs, sid) is Some
                    &&& {
                        let p = self@.programs[spec_find(self@.programs, sid)->Some_0].1;
                        &&& first_missing(p.texture_ids, self@.textures) is None
                        &&& out_len != 3 * p.width * p.height
                    }
                },
            },
    {
        proof {
            lemma_pipeline_keys(*self);
            lemma_spec_find_same_keys(self.programs@, self@.programs, sid);
        }
        let found = self.programs.index_of(sid);
        let pi = match found {
            Some(pi) => pi,
            None => {
                return Err(RenderError::ProgramNotFound(sid));
            },
        };
        proof {
            lemma_spec_find(self.programs@, sid);
        }
        let prog = self.programs.val_at(pi);
        let ghost needed = prog@.texture_ids;
        let n = prog.texture_ids.len();
        let mut k: usize = 0;
        proof {
            assert(needed.skip(0) =~= needed);
        }
        while k < n
            invariant
                pi < self.programs@.len(),
                prog == self.programs@[pi as int].1,
                spec_find(self@.programs, sid) == Some(pi as int),
                self@.programs[pi as int].1 == prog@,
                needed == prog@.texture_ids,
                n == needed.len(),
                k <= n,
                first_missing(needed, self@.textures) == first_missing(
                    needed.skip(k as int),
                    self@.textures,
                ),
            decreases n - k,
        {
            let t = prog.texture_ids[k];
            let mut i: usize = 0;
            let mut present = false;
            while i < self.textures.len()
                invariant
                    i <= self.textures@.len(),
                    present ==> self@.textures.contains(t),
                    !present ==> forall|j: int| 0 <= j < i ==> self@.textures[j] != t,
                decreases self.textures@.len() - i,
            {
                if self.textures[i] == t {
                    present = true;
                    i = self.textures.len();
                } else {
                    i = i + 1;
                }
            }
            if !present {
                proof {
                    assert(!self@.textures.contains(t));
                    assert(needed.skip(k as int)[0] == needed[k as int]);
                }
                return Err(RenderError::TextureNotFound(t));
            }
            proof {
                lemma_first_missing_step(needed, self@.textures, k as int);
            }
            k = k + 1;
        }
        proof {
            assert(needed.skip(n as int) =~= Seq::<u64>::empty());
        }
        proof {
            assert((prog.width as u64) * (prog.height as u64) <= u64::MAX) by (nonlinear_arith)
                requires
                    prog.width <= u32::MAX && prog.height <= u32::MAX,
            ;
        }
        let wh = (prog.width as u64) * (prog.height as u64);
        let fits = out_len % 3 == 0 && (out_len / 3) as u64 == wh;
        proof {
            assert(fits <==> out_len == 3 * prog@.width * prog@.height) by (nonlinear_arith)
                requires
                    fits == (out_len % 3 == 0 && (out_len / 3) as u64 == wh),
                    wh == (prog@.width as u64) * (prog@.height as u64),
            ;
        }
        if !fits {
            return Err(RenderError::OutputSizeMismatch);
        }
        let mut units: Vec<u64> = Vec::new();
        let mut k: usize = 0;
        while k < n
            invariant
                pi < self.programs@.len(),
                prog == self.programs@[pi as int].1,
                needed == prog@.texture_ids,
                n == needed.len(),
                k <= n,
                units@ == needed.take(k as int),
            decreases n - k,
        {
            units.push(prog.texture_ids[k]);
            k = k + 1;
            proof {
                assert(units@ =~= needed.take(k as int));
            }
        }
        proof {
            assert(needed.take(n as int) =~= needed);
            assert(needed.skip(n as int) =~= Seq::<u64>::empty());
            assert(first_missing(needed.skip(n as int), self@.textures) is None);
        }
        Ok(RenderPlan { texture_units: units, width: prog.width, height: prog.height })
    }
}

/// The view keeps count and keys of the program container.
proof fn lemma_pipeline_keys(p: RenderPipeline)
    ensures
        p@.programs.len() == p.programs@.len(),
        forall|i: int|
            0 <= i < p.programs@.len() ==> (#[trigger] p@.programs[i]).0 == p.programs@[i].0
                && p@.programs[i].1 == p.programs@[i].1@,
{
}

} // verus!
