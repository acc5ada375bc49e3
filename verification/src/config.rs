//! The server configuration's three sections and sparse changes to them.

use vstd::prelude::*;

verus! {

/// The server's configuration: pipeline, providers and typesetting.
pub struct AppConfig<P, R, T> {
    pub pipeline: P,
    pub providers: R,
    pub typesetting: T,
}

/// A sparse change to the configuration: each section present replaces the
/// stored section whole; absent sections stay as stored.
pub struct AppConfigPatch<P, R, T> {
    pub pipeline: Option<P>,
    pub providers: Option<R>,
    pub typesetting: Option<T>,
}

/// One section to store.
pub enum ConfigWrite<P, R, T> {
    Pipeline(P),
    Providers(R),
    Typesetting(T),
}

/// The configuration once the patch's sections have replaced the stored ones.
pub open spec fn patched<P, R, T>(c: AppConfig<P, R, T>, patch: AppConfigPatch<P, R, T>) -> AppConfig<
    P,
    R,
    T,
> {
    AppConfig {
        pipeline: match patch.pipeline {
            Some(p) => p,
            None => c.pipeline,
        },
        providers: match patch.providers {
            Some(r) => r,
            None => c.providers,
        },
        typesetting: match patch.typesetting {
            Some(t) => t,
            None => c.typesetting,
        },
    }
}

/// The configuration after storing one section.
pub open spec fn apply_write<P, R, T>(c: AppConfig<P, R, T>, w: ConfigWrite<P, R, T>) -> AppConfig<
    P,
    R,
    T,
> {
    match w {
        ConfigWrite::Pipeline(p) => AppConfig { pipeline: p, ..c },
        ConfigWrite::Providers(r) => AppConfig { providers: r, ..c },
        ConfigWrite::Typesetting(t) => AppConfig { typesetting: t, ..c },
    }
}

/// The configuration after storing the sections in order.
pub open spec fn apply_writes<P, R, T>(c: AppConfig<P, R, T>, ws: Seq<ConfigWrite<P, R, T>>) -> AppConfig<
    P,
    R,
    T,
>
    decreases ws.len(),
{
    if ws.len() == 0 {
        c
    } else {
        apply_write(apply_writes(c, ws.drop_last()), ws.last())
    }
}

/// The sections a patch stores, in the order pipeline, providers,
/// typesetting.
pub open spec fn writes_of<P, R, T>(patch: AppConfigPatch<P, R, T>) -> Seq<ConfigWrite<P, R, T>> {
    let first = match patch.pipeline {
        Some(p) => seq![ConfigWrite::Pipeline(p)],
        None => Seq::empty(),
    };
    let second = match patch.providers {
        Some(r) => first.push(ConfigWrite::Providers(r)),
        None => first,
    };
    match patch.typesetting {
        Some(t) => second.push(ConfigWrite::Typesetting(t)),
        None => second,
    }
}

impl<P, R, T> AppConfigPatch<P, R, T> {
    /// The sections to store, one write per section present.
    pub fn into_writes(self) -> (r: Vec<ConfigWrite<P, R, T>>)
        ensures
            r@ == writes_of(self),
    {
        let mut writes: Vec<ConfigWrite<P, R, T>> = Vec::new();
        match self.pipeline {
            Some(p) => writes.push(ConfigWrite::Pipeline(p)),
            None => {},
        }
        match self.providers {
            Some(r) => writes.push(ConfigWrite::Providers(r)),
            None => {},
        }
        match self.typesetting {
            Some(t) => writes.push(ConfigWrite::Typesetting(t)),
            None => {},
        }
        assert(writes@ =~= writes_of(self));
        writes
    }
}

/// Storing a patch's writes replaces exactly the sections it holds: the
/// others stay as stored.
pub proof fn lemma_writes_replace_present_sections<P, R, T>(
    c: AppConfig<P, R, T>,
    patch: AppConfigPatch<P, R, T>,
)
    ensures
        apply_writes(c, writes_of(patch)) == patched(c, patch),
{
    let empty = Seq::<ConfigWrite<P, R, T>>::empty();
    let first = match patch.pipeline {
        Some(p) => seq![ConfigWrite::Pipeline(p)],
        None => empty,
    };
    let second = match patch.providers {
        Some(r) => first.push(ConfigWrite::Providers(r)),
        None => first,
    };
    let third = writes_of(patch);
    assert(apply_writes(c, empty) == c);
    if first.len() == 1 {
        assert(first.drop_last() =~= empty);
    }
    let c1 = apply_writes(c, first);
    if second.len() > first.len() {
        assert(second.drop_last() =~= first);
    }
    let c2 = apply_writes(c, second);
    if third.len() > second.len() {
        assert(third.drop_last() =~= second);
    }
    let c3 = apply_writes(c, third);
    assert(c1.pipeline == patched(c, patch).pipeline);
    assert(c1.providers == c.providers && c1.typesetting == c.typesetting);
    assert(c2.pipeline == c1.pipeline && c2.providers == patched(c, patch).providers);
    assert(c2.typesetting == c.typesetting);
    assert(c3.pipeline == c2.pipeline && c3.providers == c2.providers);
    assert(c3.typesetting == patched(c, patch).typesetting);
}

/// Applying the same patch twice is applying it once, and an empty patch
/// changes nothing.
pub proof fn lemma_patch_is_idempotent<P, R, T>(c: AppConfig<P, R, T>, patch: AppConfigPatch<P, R, T>)
    ensures
        patched(patched(c, patch), patch) == patched(c, patch),
        patched(c, AppConfigPatch { pipeline: None, providers: None, typesetting: None }) == c,
{
}

} // verus!
