//! The cache policy of the waveform renderer: a rendered buffer is kept
//! until the data is replaced or the settings or viewport change, and a
//! buffer is rendered only when none is kept. Whether settings or viewport
//! changed is decided by the caller (they hold floating-point values).

use vstd::prelude::*;

verus! {

/// A change made to the renderer's inputs.
pub enum RenderInput {
    /// New settings; `changed` tells whether they differ from the old ones.
    Settings { changed: bool },
    /// New waveform data (always treated as a change).
    Data,
    /// A new viewport; `changed` tells whether it differs from the old one.
    Viewport { changed: bool },
}

/// The cached buffer after an input change: dropped on any change, kept
/// otherwise.
pub open spec fn cache_after<P>(cached: Option<P>, input: RenderInput) -> Option<P> {
    match input {
        RenderInput::Settings { changed } => if changed {
            None
        } else {
            cached
        },
        RenderInput::Data => None,
        RenderInput::Viewport { changed } => if changed {
            None
        } else {
            cached
        },
    }
}

/// The renderer's cached pixel buffer, if any.
pub struct RenderCache<P> {
    cached: Option<P>,
}

impl<P> View for RenderCache<P> {
    type V = Option<P>;

    closed spec fn view(&self) -> Option<P> {
        self.cached
    }
}

impl<P> RenderCache<P> {
    /// Nothing rendered yet.
    pub fn new() -> (r: Self)
        ensures
            r@ is None,
    {
        RenderCache { cached: None }
    }

    /// Records new settings; returns whether the cache was invalidated.
    pub fn settings_set(&mut self, changed: bool) -> (r: bool)
        ensures
            r == changed,
            final(self)@ == cache_after(old(self)@, RenderInput::Settings { changed }),
    {
        if changed {
            self.cached = None;
        }
        changed
    }

    /// Records new waveform data.
    pub fn data_set(&mut self)
        ensures
            final(self)@ == cache_after(old(self)@, RenderInput::Data),
    {
        self.cached = None;
    }

    /// Records a new viewport.
    pub fn viewport_set(&mut self, changed: bool)
        ensures
            final(self)@ == cache_after(old(self)@, RenderInput::Viewport { changed }),
    {
        if changed {
            self.cached = None;
        }
    }

    /// Whether a buffer has to be rendered before one can be handed out.
    pub fn needs_render(&self) -> (r: bool)
        ensures
            r == self@ is None,
    {
        self.cached.is_none()
    }

    /// Keeps a freshly rendered buffer.
    pub fn store(&mut self, buffer: P)
        ensures
            final(self)@ == Some(buffer),
    {
        self.cached = Some(buffer);
    }

    /// The kept buffer.
    pub fn cached(&self) -> (r: &P)
        requires
            self@ is Some,
        ensures
            *r == self@->0,
    {
        self.cached.as_ref().unwrap()
    }
}

/// The cache after a run of input changes.
pub open spec fn cache_after_all<P>(cached: Option<P>, inputs: Seq<RenderInput>) -> Option<P>
    decreases inputs.len(),
{
    if inputs.len() == 0 {
        cached
    } else {
        cache_after(cache_after_all(cached, inputs.drop_last()), inputs.last())
    }
}

/// An input change that changes nothing.
pub open spec fn is_unchanged(input: RenderInput) -> bool {
    match input {
        RenderInput::Settings { changed } => !changed,
        RenderInput::Data => false,
        RenderInput::Viewport { changed } => !changed,
    }
}

/// The renderer re-renders only when something changed: after a buffer was
/// rendered, setting inputs that equal the old ones keeps it.
pub proof fn lemma_unchanged_inputs_keep_buffer<P>(buffer: P, inputs: Seq<RenderInput>)
    requires
        forall|i: int| 0 <= i < inputs.len() ==> is_unchanged(#[trigger] inputs[i]),
    ensures
        cache_after_all(Some(buffer), inputs) == Some(buffer),
    decreases inputs.len(),
{
    if inputs.len() > 0 {
        lemma_unchanged_inputs_keep_buffer(buffer, inputs.drop_last());
        assert(is_unchanged(inputs[inputs.len() - 1]));
    }
}

/// Any change of data, settings or viewport forces a new render.
pub proof fn lemma_change_forces_render<P>(cached: Option<P>, input: RenderInput)
    requires
        !is_unchanged(input),
    ensures
        cache_after(cached, input) is None,
{
}

} // verus!
