use vstd::prelude::*;
use crate::grammar::LoadedLanguage;
use crate::lang::Lang;

verus! {

/// The grammar cache: at most one loaded grammar per language, installed on
/// first use and never evicted. The cache is an explicit object rather than
/// process-wide state, so callers and tests can construct fresh instances.
pub struct Registry {
    pub entries: Vec<(Lang, LoadedLanguage)>,
}

impl Registry {
    /// The first grammar cached for `l` in a run of cache entries, if any.
    pub open spec fn spec_lookup_in(s: Seq<(Lang, LoadedLanguage)>, l: Lang) -> Option<
        LoadedLanguage,
    >
        decreases s.len(),
    {
        if s.len() == 0 {
            None
        } else if s[0].0 == l {
            Some(s[0].1)
        } else {
            Self::spec_lookup_in(s.drop_first(), l)
        }
    }

    /// The grammar cached for `l`, if any.
    pub open spec fn spec_lookup(self, l: Lang) -> Option<LoadedLanguage> {
        Self::spec_lookup_in(self.entries@, l)
    }

    /// Whether a grammar for `l` is cached.
    pub open spec fn has_lang(self, l: Lang) -> bool {
        self.spec_lookup(l) is Some
    }

    /// A fresh registry with an empty cache.
    pub fn new() -> (r: Registry)
        ensures
            r.entries@.len() == 0,
    {
        Registry { entries: Vec::new() }
    }

    /// How many grammars are cached.
    pub fn len(&self) -> (n: usize)
        ensures
            n == self.entries@.len(),
    {
        self.entries.len()
    }

    /// A pure cache probe: returns the cached grammar for `l` and never
    /// loads anything.
    pub fn lookup(&self, l: Lang) -> (r: Option<&LoadedLanguage>)
        ensures
            r matches Some(g) ==> self.spec_lookup(l) == Some(*g),
            r is None ==> self.spec_lookup(l) is None,
    {
        let n: usize = self.entries.len();
        let mut i: usize = 0;
        proof {
            assert(self.entries@.skip(0) =~= self.entries@);
        }
        while i < n
            invariant
                n == self.entries@.len(),
                0 <= i <= n,
                Self::spec_lookup_in(self.entries@, l) == Self::spec_lookup_in(
                    self.entries@.skip(i as int),
                    l,
                ),
            decreases n - i,
        {
            let ghost tail = self.entries@.skip(i as int);
            proof {
                assert(tail[0] == self.entries@[i as int]);
                assert(tail.drop_first() =~= self.entries@.skip(i as int + 1));
            }
            if self.entries[i].0 == l {
                return Some(&self.entries[i].1);
            }
            i += 1;
        }
        proof {
            assert(self.entries@.skip(n as int) =~= Seq::<(Lang, LoadedLanguage)>::empty());
        }
        None
    }

    /// Whether a grammar for `l` is cached, without touching it.
    pub fn contains_lang(&self, l: Lang) -> (b: bool)
        ensures
            b == self.has_lang(l),
    {
        match self.lookup(l) {
            Some(_) => true,
            None => false,
        }
    }

    /// Caches a freshly loaded grammar for `l` — unless one is already
    /// cached, in which case the registry is left exactly as it was: the
    /// cache is written at most once per language, and the first grammar
    /// installed for a name is the one that every later resolution observes.
    pub fn install(&mut self, l: Lang, g: LoadedLanguage)
        ensures
            old(self).has_lang(l) ==> *final(self) == *old(self),
            !old(self).has_lang(l) ==> final(self).entries@ == old(self).entries@.push((l, g)),
    {
        if !self.contains_lang(l) {
            self.entries.push((l, g));
        }
    }
}

/// Law: resolution is deterministic. A cache probe is a pure function of
/// the registry's state, so two probes of the same registry for the same
/// language return the identical grammar.
pub proof fn lemma_lookup_deterministic(
    r: Registry,
    l: Lang,
    g1: Option<LoadedLanguage>,
    g2: Option<LoadedLanguage>,
)
    requires
        g1 == r.spec_lookup(l),
        g2 == r.spec_lookup(l),
    ensures
        g1 == g2,
{
}

/// Law: a single load per language suffices. Installing a grammar for a
/// language that missed the cache makes every later lookup for that
/// language return exactly that grammar; together with `install`'s
/// guarantee that a second install leaves the cache untouched, the grammar
/// loader runs at most once per language.
pub proof fn lemma_install_then_lookup(
    pre: Seq<(Lang, LoadedLanguage)>,
    l: Lang,
    g: LoadedLanguage,
)
    requires
        Registry::spec_lookup_in(pre, l) is None,
    ensures
        Registry::spec_lookup_in(pre.push((l, g)), l) == Some(g),
    decreases pre.len(),
{
    if pre.len() == 0 {
        assert(pre.push((l, g))[0] == (l, g));
    } else {
        assert(pre[0].0 != l);
        assert(pre.push((l, g)).drop_first() =~= pre.drop_first().push((l, g)));
        lemma_install_then_lookup(pre.drop_first(), l, g);
    }
}

} // verus!
