use vstd::prelude::*;
use crate::cache::{CacheContext, CacheType, context_hash_of, hex};
use crate::lnk::ProjectLnk;
use crate::project::lnk_ids;
use crate::seqs::keep;

verus! {

/// The texture stored for a project (its first record), if any.
pub open spec fn texture_of<T>(s: Seq<(Seq<char>, T)>, p: Seq<char>) -> Option<T>
    decreases s.len(),
{
    if s.len() == 0 {
        None
    } else if s[0].0 == p {
        Some(s[0].1)
    } else {
        texture_of(s.drop_first(), p)
    }
}

/// The position of a project's first record, if any.
pub open spec fn texture_pos<T>(s: Seq<(Seq<char>, T)>, p: Seq<char>) -> int
    decreases s.len(),
{
    if s.len() == 0 {
        -1
    } else if s[0].0 == p {
        0
    } else {
        let r = texture_pos(s.drop_first(), p);
        if r < 0 {
            -1
        } else {
            r + 1
        }
    }
}

/// The textures with `t` stored for `p`, in place of what was stored for it.
pub open spec fn put_texture<T>(s: Seq<(Seq<char>, T)>, p: Seq<char>, t: T) -> Seq<(Seq<char>, T)> {
    let i = texture_pos(s, p);
    if i >= 0 {
        s.update(i, (p, t))
    } else {
        s.push((p, t))
    }
}

/// The icons of projects: the textures made so far, and the projects whose icon is being
/// fetched. The drawing code makes the textures; this keeps track of them.
#[verifier::reject_recursive_types(T)]
pub struct ProjectIconPool<T> {
    textures: Vec<(ProjectLnk, T)>,
    loading: Vec<ProjectLnk>,
}

/// The abstract value of the pool: the textures, by project, and the projects loading.
pub struct IconPoolModel<T> {
    pub textures: Seq<(Seq<char>, T)>,
    pub loading: Seq<Seq<char>>,
}

impl<T> View for ProjectIconPool<T> {
    type V = IconPoolModel<T>;

    closed spec fn view(&self) -> IconPoolModel<T> {
        IconPoolModel {
            textures: self.textures@.map_values(|e: (ProjectLnk, T)| (e.0@, e.1)),
            loading: lnk_ids(self.loading@),
        }
    }
}

/// The context a project's icon is cached under: its id alone.
pub fn icon_context(project: &ProjectLnk) -> (r: CacheContext)
    ensures
        r.id matches Some(s) && s@ == project@,
        r.resource_type is None,
        r.version is None,
        r.loader is None,
{
    CacheContext { id: project.to_context_id(), resource_type: None, version: None, loader: None }
}

/// The registry key of a project's icon.
pub open spec fn icon_key(project: Seq<char>) -> (CacheType, Seq<char>) {
    (CacheType::ProjectIcons, hex(context_hash_of(CacheType::ProjectIcons, Some(project), None, None, None) as nat))
}

proof fn lemma_pos_texture<T>(s: Seq<(Seq<char>, T)>, p: Seq<char>)
    ensures
        texture_pos(s, p) >= 0 <==> texture_of(s, p) is Some,
        texture_pos(s, p) >= 0 ==> texture_pos(s, p) < s.len() && s[texture_pos(s, p)] == (p, texture_of(s, p)->0),
    decreases s.len(),
{
    if s.len() > 0 && s[0].0 != p {
        lemma_pos_texture(s.drop_first(), p);
        if texture_pos(s.drop_first(), p) >= 0 {
            assert(s[texture_pos(s, p)] == s.drop_first()[texture_pos(s.drop_first(), p)]);
        }
    }
}

impl<T> ProjectIconPool<T> {
    /// A pool with no textures and nothing loading.
    pub fn new() -> (r: Self)
        ensures
            r@.textures == Seq::<(Seq<char>, T)>::empty(),
            r@.loading == Seq::<Seq<char>>::empty(),
    {
        let r = ProjectIconPool { textures: Vec::new(), loading: Vec::new() };
        assert(r@.textures =~= Seq::<(Seq<char>, T)>::empty());
        assert(r@.loading =~= Seq::<Seq<char>>::empty());
        r
    }

    /// The position of a project's texture (see `texture_pos`).
    fn position(&self, p: &ProjectLnk) -> (r: Option<usize>)
        ensures
            match r {
                Some(i) => texture_pos(self@.textures, p@) == i as int && i < self@.textures.len(),
                None => texture_pos(self@.textures, p@) < 0,
            },
    {
        let ghost s = self@.textures;
        let mut i: usize = 0;
        assert(s.skip(0) =~= s);
        while i < self.textures.len()
            invariant
                i <= self.textures@.len(),
                s == self@.textures,
                s.len() == self.textures@.len(),
                texture_pos(s, p@) == (if texture_pos(s.skip(i as int), p@) < 0 {
                    -1
                } else {
                    texture_pos(s.skip(i as int), p@) + i
                }),
            decreases self.textures@.len() - i,
        {
            assert(s.skip(i as int)[0] == s[i as int]);
            assert(s[i as int] == (self.textures@[i as int].0@, self.textures@[i as int].1));
            if self.textures[i].0 == *p {
                return Some(i);
            }
            assert(s.skip(i as int).drop_first() =~= s.skip(i + 1));
            i = i + 1;
        }
        assert(s.skip(i as int) =~= Seq::<(Seq<char>, T)>::empty());
        None
    }

    /// The texture made for a project, if any.
    pub fn texture(&self, p: &ProjectLnk) -> (r: Option<&T>)
        ensures
            match r {
                Some(t) => texture_of(self@.textures, p@) == Some(*t),
                None => texture_of(self@.textures, p@) is None,
            },
    {
        proof {
            lemma_pos_texture(self@.textures, p@);
        }
        match self.position(p) {
            Some(i) => {
                assert(self@.textures[i as int] == (self.textures@[i as int].0@, self.textures@[i as int].1));
                Some(&self.textures[i].1)
            },
            None => None,
        }
    }

    /// Asks for a project's icon: when no texture is made for it and it is not loading
    /// already, it is marked as loading and `true` says that its fetch is to be asked for
    /// (under `icon_context`); otherwise nothing changes.
    pub fn request_icon(&mut self, p: &ProjectLnk) -> (r: bool)
        ensures
            r == (texture_of(old(self)@.textures, p@) is None && !old(self)@.loading.contains(p@)),
            final(self)@.textures == old(self)@.textures,
            final(self)@.loading == (if r {
                old(self)@.loading.push(p@)
            } else {
                old(self)@.loading
            }),
    {
        proof {
            lemma_pos_texture(self@.textures, p@);
        }
        if self.position(p).is_some() {
            return false;
        }
        if crate::paste::has_lnk(&self.loading, p) {
            return false;
        }
        let ghost l0 = self@.loading;
        let ghost t0 = self@.textures;
        self.loading.push(p.clone());
        assert(self@.loading =~= l0.push(p@));
        assert(self@.textures =~= t0);
        true
    }

    /// The projects whose icon is being fetched, in order.
    pub fn loading_projects(&self) -> (r: Vec<ProjectLnk>)
        ensures
            lnk_ids(r@) == self@.loading,
    {
        crate::project::clone_lnks(&self.loading)
    }

    /// Ends the loading of a project's icon: with the texture made from it, which is
    /// stored for the project, or none (the fetch or the decoding failed). Either way the
    /// project is no longer loading.
    pub fn finish_loading(&mut self, p: &ProjectLnk, texture: Option<T>)
        ensures
            final(self)@.loading == keep(old(self)@.loading, |x: Seq<char>| x != p@),
            final(self)@.textures == (match texture {
                Some(t) => put_texture(old(self)@.textures, p@, t),
                None => old(self)@.textures,
            }),
    {
        let ghost l0 = self@.loading;
        let ghost t0 = self@.textures;
        let ghost f = |x: Seq<char>| x != p@;
        let mut kept: Vec<ProjectLnk> = Vec::new();
        let mut i: usize = 0;
        assert(lnk_ids(kept@) =~= keep(l0.take(0), f));
        while i < self.loading.len()
            invariant
                i <= self.loading@.len(),
                l0 == lnk_ids(self.loading@),
                t0 == self@.textures,
                f == (|x: Seq<char>| x != p@),
                lnk_ids(kept@) == keep(l0.take(i as int), f),
            decreases self.loading@.len() - i,
        {
            proof {
                crate::seqs::lemma_keep_step(l0, f, i as int);
            }
            assert(l0[i as int] == self.loading@[i as int]@);
            if !(self.loading[i] == *p) {
                let ghost k0 = kept@;
                kept.push(self.loading[i].clone());
                assert(lnk_ids(kept@) =~= lnk_ids(k0).push(l0[i as int]));
            }
            i = i + 1;
        }
        assert(l0.take(l0.len() as int) =~= l0);
        self.loading = kept;
        assert(self@.textures =~= t0);
        match texture {
            Some(t) => {
                let ghost tm = t;
                proof {
                    lemma_pos_texture(t0, p@);
                }
                match self.position(p) {
                    Some(j) => {
                        self.textures.set(j, (p.clone(), t));
                        assert(self@.textures =~= t0.update(j as int, (p@, tm)));
                    },
                    None => {
                        self.textures.push((p.clone(), t));
                        assert(self@.textures =~= t0.push((p@, tm)));
                    },
                }
            },
            None => {},
        }
    }

    /// Forgets every texture and every loading project.
    pub fn clear(&mut self)
        ensures
            final(self)@.textures == Seq::<(Seq<char>, T)>::empty(),
            final(self)@.loading == Seq::<Seq<char>>::empty(),
    {
        self.textures = Vec::new();
        self.loading = Vec::new();
        assert(self@.textures =~= Seq::<(Seq<char>, T)>::empty());
        assert(self@.loading =~= Seq::<Seq<char>>::empty());
    }
}

/// After a project's loading ends with a texture, that texture is the one found for the
/// project.
pub proof fn law_finished_icon_is_found<T>(s: Seq<(Seq<char>, T)>, p: Seq<char>, t: T)
    ensures
        texture_of(put_texture(s, p, t), p) == Some(t),
    decreases s.len(),
{
    lemma_pos_texture(s, p);
    let i = texture_pos(s, p);
    if s.len() > 0 && s[0].0 != p {
        law_finished_icon_is_found(s.drop_first(), p, t);
        lemma_pos_texture(s.drop_first(), p);
        if i >= 0 {
            assert(put_texture(s, p, t).drop_first() =~= put_texture(s.drop_first(), p, t));
        } else {
            assert(put_texture(s, p, t).drop_first() =~= put_texture(s.drop_first(), p, t));
        }
    } else if s.len() == 0 {
        assert(put_texture(s, p, t)[0] == (p, t));
    }
}

} // verus!
