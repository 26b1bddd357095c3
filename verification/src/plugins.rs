use vstd::prelude::*;

verus! {

// ---------------------------------------------------------------------------
// The plugin registry (dispatch model).
//
// Shared libraries supply alternative container formats. Loading them and
// calling through their vtables is host work; which plugin a job goes to is
// codec logic, and is decided here: the registry holds each plugin's
// identity, its enabled switch and the container tags it claims, and the
// host keeps the loaded objects under the same indexes.
// ---------------------------------------------------------------------------

/// What a plugin declares about itself.
#[derive(Debug)]
pub struct PluginMetadata {
    pub name: String,
    pub description: String,
    pub version: String,
    pub author: String,
}

/// `true` iff the two metadata values spell the same strings.
pub open spec fn meta_matches(m: PluginMetadata, p: PluginMetadata) -> bool {
    &&& m.name@ == p.name@
    &&& m.description@ == p.description@
    &&& m.version@ == p.version@
    &&& m.author@ == p.author@
}

impl PluginMetadata {
    /// A field-for-field copy.
    pub fn clone_meta(&self) -> (r: PluginMetadata)
        ensures
            meta_matches(r, *self),
    {
        PluginMetadata {
            name: self.name.clone(),
            description: self.description.clone(),
            version: self.version.clone(),
            author: self.author.clone(),
        }
    }
}

/// One registered plugin as the dispatcher sees it. The loaded library and
/// its encoder and decoder objects stay with the host, under this entry's
/// index.
pub struct LoadedPlugin {
    pub metadata: PluginMetadata,
    /// Disabled by default; the user toggles it.
    pub enabled: bool,
    /// Whether the library exported an encoder.
    pub has_encoder: bool,
    /// Whether the library exported a decoder.
    pub has_decoder: bool,
    /// Container tags the encoder claims.
    pub encoder_tags: Vec<String>,
    /// Container tags the decoder claims.
    pub decoder_tags: Vec<String>,
}

/// `true` iff `t` is among the claimed tags.
pub open spec fn tag_among(tags: Seq<String>, t: Seq<char>) -> bool {
    exists|k: int| 0 <= k < tags.len() && tags[k]@ == t
}

/// `true` iff this plugin is the encoder for tag `t`: enabled, exporting an
/// encoder, and claiming the tag.
pub open spec fn enc_claims(p: LoadedPlugin, t: Seq<char>) -> bool {
    p.enabled && p.has_encoder && tag_among(p.encoder_tags@, t)
}

/// `true` iff this plugin can decode carriers tagged `t`.
pub open spec fn dec_claims(p: LoadedPlugin, t: Seq<char>) -> bool {
    p.enabled && p.has_decoder && tag_among(p.decoder_tags@, t)
}

/// The metadata of the enabled plugins, in registration order.
pub open spec fn enabled_metas(ps: Seq<LoadedPlugin>) -> Seq<PluginMetadata>
    decreases ps.len(),
{
    if ps.len() == 0 {
        Seq::empty()
    } else {
        let rest = enabled_metas(ps.drop_last());
        if ps.last().enabled {
            rest.push(ps.last().metadata)
        } else {
            rest
        }
    }
}

/// Looks for `t` among the claimed tags.
fn tag_contained(tags: &Vec<String>, t: &String) -> (r: bool)
    ensures
        r <==> tag_among(tags@, t@),
{
    let n: usize = tags.len();
    let mut k: usize = 0;
    while k < n
        invariant
            n == tags@.len(),
            k <= n,
            forall|j: int| 0 <= j < k ==> tags@[j]@ != t@,
        decreases n - k,
    {
        if tags[k] == *t {
            return true;
        }
        k = k + 1;
    }
    false
}

/// The registry: every plugin found at startup, keyed by index.
pub struct PluginManager {
    pub plugins: Vec<LoadedPlugin>,
}

impl PluginManager {
    /// An empty registry.
    pub fn new() -> (r: PluginManager)
        ensures
            r.plugins@.len() == 0,
    {
        PluginManager { plugins: Vec::new() }
    }

    /// Registers one plugin; the host keeps its objects under the returned
    /// index.
    pub fn register(&mut self, p: LoadedPlugin) -> (idx: usize)
        ensures
            final(self).plugins@ == old(self).plugins@.push(p),
            idx == old(self).plugins@.len(),
    {
        let idx: usize = self.plugins.len();
        self.plugins.push(p);
        idx
    }

    /// Toggles every plugin of the given name; everything else is kept.
    pub fn set_plugin_enabled(&mut self, name: &String, enabled: bool)
        ensures
            final(self).plugins@.len() == old(self).plugins@.len(),
            forall|i: int|
                0 <= i < old(self).plugins@.len() ==> {
                    let po = old(self).plugins@[i];
                    let pf = #[trigger] final(self).plugins@[i];
                    &&& pf.metadata == po.metadata
                    &&& pf.has_encoder == po.has_encoder
                    &&& pf.has_decoder == po.has_decoder
                    &&& pf.encoder_tags == po.encoder_tags
                    &&& pf.decoder_tags == po.decoder_tags
                    &&& pf.enabled == if po.metadata.name@ == name@ {
                        enabled
                    } else {
                        po.enabled
                    }
                },
    {
        let n: usize = self.plugins.len();
        let mut i: usize = 0;
        while i < n
            invariant
                n == self.plugins@.len(),
                i <= n,
                forall|j: int|
                    i <= j < n ==> #[trigger] self.plugins@[j] == old(self).plugins@[j],
                forall|j: int|
                    0 <= j < i ==> {
                        let po = old(self).plugins@[j];
                        let pf = #[trigger] self.plugins@[j];
                        &&& pf.metadata == po.metadata
                        &&& pf.has_encoder == po.has_encoder
                        &&& pf.has_decoder == po.has_decoder
                        &&& pf.encoder_tags == po.encoder_tags
                        &&& pf.decoder_tags == po.decoder_tags
                        &&& pf.enabled == if po.metadata.name@ == name@ {
                            enabled
                        } else {
                            po.enabled
                        }
                    },
            decreases n - i,
        {
            if self.plugins[i].metadata.name == *name {
                self.plugins[i].enabled = enabled;
            }
            i = i + 1;
        }
    }

    /// The metadata of every enabled plugin, in registration order.
    pub fn get_enabled_plugins_meta(&self) -> (r: Vec<PluginMetadata>)
        ensures
            r@.len() == enabled_metas(self.plugins@).len(),
            forall|i: int|
                0 <= i < r@.len() ==> meta_matches(
                    #[trigger] r@[i],
                    enabled_metas(self.plugins@)[i],
                ),
    {
        let n: usize = self.plugins.len();
        let mut out: Vec<PluginMetadata> = Vec::new();
        let mut i: usize = 0;
        while i < n
            invariant
                n == self.plugins@.len(),
                i <= n,
                out@.len() == enabled_metas(self.plugins@.take(i as int)).len(),
                forall|j: int|
                    0 <= j < out@.len() ==> meta_matches(
                        #[trigger] out@[j],
                        enabled_metas(self.plugins@.take(i as int))[j],
                    ),
            decreases n - i,
        {
            proof {
                assert(self.plugins@.take(i as int + 1).drop_last() =~= self.plugins@.take(
                    i as int,
                ));
                assert(self.plugins@.take(i as int + 1).last() == self.plugins@[i as int]);
            }
            if self.plugins[i].enabled {
                let m = self.plugins[i].metadata.clone_meta();
                out.push(m);
            }
            i = i + 1;
        }
        proof {
            assert(self.plugins@.take(n as int) =~= self.plugins@);
        }
        out
    }

    /// Every plugin's metadata with its enabled switch, in registration
    /// order.
    pub fn get_all_plugins_meta(&self) -> (r: Vec<(PluginMetadata, bool)>)
        ensures
            r@.len() == self.plugins@.len(),
            forall|i: int|
                0 <= i < r@.len() ==> meta_matches((#[trigger] r@[i]).0, self.plugins@[i].metadata)
                    && r@[i].1 == self.plugins@[i].enabled,
    {
        let n: usize = self.plugins.len();
        let mut out: Vec<(PluginMetadata, bool)> = Vec::new();
        let mut i: usize = 0;
        while i < n
            invariant
                n == self.plugins@.len(),
                i <= n,
                out@.len() == i,
                forall|j: int|
                    0 <= j < i ==> meta_matches(
                        (#[trigger] out@[j]).0,
                        self.plugins@[j].metadata,
                    ) && out@[j].1 == self.plugins@[j].enabled,
            decreases n - i,
        {
            let m = self.plugins[i].metadata.clone_meta();
            let e: bool = self.plugins[i].enabled;
            out.push((m, e));
            i = i + 1;
        }
        out
    }

    /// The first enabled plugin whose encoder claims the container tag, if
    /// any: the host encodes through it; otherwise the built-in writers
    /// serve the tag.
    pub fn get_encoder(&self, tag: &String) -> (r: Option<usize>)
        ensures
            match r {
                Option::Some(i) => 0 <= i < self.plugins@.len() && enc_claims(
                    self.plugins@[i as int],
                    tag@,
                ) && forall|j: int| 0 <= j < i ==> !enc_claims(self.plugins@[j], tag@),
                Option::None => forall|j: int|
                    0 <= j < self.plugins@.len() ==> !enc_claims(self.plugins@[j], tag@),
            },
    {
        let n: usize = self.plugins.len();
        let mut i: usize = 0;
        while i < n
            invariant
                n == self.plugins@.len(),
                i <= n,
                forall|j: int| 0 <= j < i ==> !enc_claims(self.plugins@[j], tag@),
            decreases n - i,
        {
            if self.plugins[i].enabled && self.plugins[i].has_encoder {
                if tag_contained(&self.plugins[i].encoder_tags, tag) {
                    return Some(i);
                }
            }
            i = i + 1;
        }
        None
    }

    /// The first enabled plugin whose decoder claims the carrier tag, if
    /// any.
    pub fn get_decoder_by_ext(&self, tag: &String) -> (r: Option<usize>)
        ensures
            match r {
                Option::Some(i) => 0 <= i < self.plugins@.len() && dec_claims(
                    self.plugins@[i as int],
                    tag@,
                ) && forall|j: int| 0 <= j < i ==> !dec_claims(self.plugins@[j], tag@),
                Option::None => forall|j: int|
                    0 <= j < self.plugins@.len() ==> !dec_claims(self.plugins@[j], tag@),
            },
    {
        let n: usize = self.plugins.len();
        let mut i: usize = 0;
        while i < n
            invariant
                n == self.plugins@.len(),
                i <= n,
                forall|j: int| 0 <= j < i ==> !dec_claims(self.plugins@[j], tag@),
            decreases n - i,
        {
            if self.plugins[i].enabled && self.plugins[i].has_decoder {
                if tag_contained(&self.plugins[i].decoder_tags, tag) {
                    return Some(i);
                }
            }
            i = i + 1;
        }
        None
    }
}

} // verus!
