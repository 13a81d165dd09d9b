use vstd::prelude::*;

verus! {

/// Token labels of the named-entity model (CoNLL-2003 scheme).
#[derive(Debug, Clone, Copy, PartialEq, Eq, Structural, Hash)]
pub enum NerLabel {
    Outside,
    BeginPer,
    InsidePer,
    BeginOrg,
    InsideOrg,
    BeginLoc,
    InsideLoc,
    BeginMisc,
    InsideMisc,
}

/// The kinds of named entity the model tells apart.
#[derive(Debug, Clone, Copy, PartialEq, Eq, Structural, Hash)]
pub enum NerEntityType {
    Person,
    Organization,
    Location,
    Misc,
}

/// The label the model's output index stands for; unknown indices read as
/// `Outside`.
pub open spec fn label_of_id(id: usize) -> NerLabel {
    if id == 1 {
        NerLabel::BeginPer
    } else if id == 2 {
        NerLabel::InsidePer
    } else if id == 3 {
        NerLabel::BeginOrg
    } else if id == 4 {
        NerLabel::InsideOrg
    } else if id == 5 {
        NerLabel::BeginLoc
    } else if id == 6 {
        NerLabel::InsideLoc
    } else if id == 7 {
        NerLabel::BeginMisc
    } else if id == 8 {
        NerLabel::InsideMisc
    } else {
        NerLabel::Outside
    }
}

pub open spec fn entity_type_of(label: NerLabel) -> Option<NerEntityType> {
    match label {
        NerLabel::BeginPer | NerLabel::InsidePer => Some(NerEntityType::Person),
        NerLabel::BeginOrg | NerLabel::InsideOrg => Some(NerEntityType::Organization),
        NerLabel::BeginLoc | NerLabel::InsideLoc => Some(NerEntityType::Location),
        NerLabel::BeginMisc | NerLabel::InsideMisc => Some(NerEntityType::Misc),
        NerLabel::Outside => None,
    }
}

pub open spec fn is_begin_label(label: NerLabel) -> bool {
    label == NerLabel::BeginPer || label == NerLabel::BeginOrg || label == NerLabel::BeginLoc
        || label == NerLabel::BeginMisc
}

impl NerLabel {
    /// The label for an output index of the model.
    pub fn from_id(id: usize) -> (label: Self)
        ensures
            label == label_of_id(id),
    {
        match id {
            1 => NerLabel::BeginPer,
            2 => NerLabel::InsidePer,
            3 => NerLabel::BeginOrg,
            4 => NerLabel::InsideOrg,
            5 => NerLabel::BeginLoc,
            6 => NerLabel::InsideLoc,
            7 => NerLabel::BeginMisc,
            8 => NerLabel::InsideMisc,
            _ => NerLabel::Outside,
        }
    }

    /// The kind of entity the label belongs to, `None` for `Outside`.
    pub fn entity_type(&self) -> (t: Option<NerEntityType>)
        ensures
            t == entity_type_of(*self),
    {
        match self {
            NerLabel::BeginPer | NerLabel::InsidePer => Some(NerEntityType::Person),
            NerLabel::BeginOrg | NerLabel::InsideOrg => Some(NerEntityType::Organization),
            NerLabel::BeginLoc | NerLabel::InsideLoc => Some(NerEntityType::Location),
            NerLabel::BeginMisc | NerLabel::InsideMisc => Some(NerEntityType::Misc),
            NerLabel::Outside => None,
        }
    }

    /// Whether the label opens an entity.
    pub fn is_begin(&self) -> (b: bool)
        ensures
            b == is_begin_label(*self),
    {
        match self {
            NerLabel::BeginPer | NerLabel::BeginOrg | NerLabel::BeginLoc | NerLabel::BeginMisc => true,
            _ => false,
        }
    }
}

/// An entity found by the model in a text. `confidence` is the model's
/// probability in units of 2^-24, which holds every single-precision
/// probability of at least one half exactly.
#[derive(Debug)]
pub struct NerEntity {
    pub entity_type: NerEntityType,
    pub text: String,
    pub start: usize,
    pub end: usize,
    pub confidence: u32,
}

/// Where the model stands: not loaded yet, failed to load (with the
/// reason), or ready.
#[derive(Debug)]
pub enum NerStatus {
    Uninitialized,
    Failed(String),
    Ready,
}

/// Whether the model loaded and can be used.
pub fn is_ner_available(status: &NerStatus) -> (available: bool)
    ensures
        available == (*status is Ready),
{
    match status {
        NerStatus::Ready => true,
        _ => false,
    }
}

/// An entity assembled from consecutive tokens: its kind, its byte range in
/// the text and the indices of the tokens whose confidences make up its
/// confidence (the first token, then each token that extended it).
#[derive(Debug)]
pub struct EntitySpan {
    pub entity_type: NerEntityType,
    pub start: usize,
    pub end: usize,
    pub tokens: Vec<usize>,
}

pub struct SpanView {
    pub entity_type: NerEntityType,
    pub start: usize,
    pub end: usize,
    pub tokens: Seq<usize>,
}

impl View for EntitySpan {
    type V = SpanView;

    open spec fn view(&self) -> SpanView {
        SpanView {
            entity_type: self.entity_type,
            start: self.start,
            end: self.end,
            tokens: self.tokens@,
        }
    }
}

/// Entities already closed, and the one being built.
pub type GroupState = (Seq<SpanView>, Option<SpanView>);

/// Closes the entity being built: it is kept when it ends within the text.
pub open spec fn close_entity(done: Seq<SpanView>, current: Option<SpanView>, text_len: nat) -> Seq<
    SpanView,
> {
    match current {
        Some(span) => if span.end <= text_len {
            done.push(span)
        } else {
            done
        },
        None => done,
    }
}

/// One token of the grouping: special tokens (empty offsets after the first
/// token) are skipped; a token of an entity kind opens a new entity when its
/// label begins one or the kind changes, and otherwise extends the current
/// one; an `Outside` token closes the current entity.
pub open spec fn group_step(
    state: GroupState,
    prediction: u32,
    offset: (usize, usize),
    i: usize,
    text_len: nat,
) -> GroupState {
    let (done, current) = state;
    let label = label_of_id(prediction as usize);
    let (start, end) = offset;
    if start == 0 && end == 0 && i > 0 {
        state
    } else {
        match entity_type_of(label) {
            Some(t) => {
                let same_kind = match current {
                    Some(span) => span.entity_type == t,
                    None => false,
                };
                if is_begin_label(label) || !same_kind {
                    (
                        close_entity(done, current, text_len),
                        Some(SpanView { entity_type: t, start, end, tokens: seq![i] }),
                    )
                } else {
                    let span = current.unwrap();
                    (done, Some(SpanView { end, tokens: span.tokens.push(i), ..span }))
                }
            },
            None => (close_entity(done, current, text_len), None),
        }
    }
}

/// The grouping state after the first `n` tokens.
pub open spec fn group_scan(
    predictions: Seq<u32>,
    offsets: Seq<(usize, usize)>,
    n: nat,
    text_len: nat,
) -> GroupState
    decreases n,
{
    if n == 0 {
        (seq![], None)
    } else {
        let i = (n - 1) as nat;
        group_step(
            group_scan(predictions, offsets, i, text_len),
            predictions[i as int],
            offsets[i as int],
            i as usize,
            text_len,
        )
    }
}

/// The entities the token labels spell out.
pub open spec fn grouped_entities(
    predictions: Seq<u32>,
    offsets: Seq<(usize, usize)>,
    text_len: nat,
) -> Seq<SpanView> {
    let (done, current) = group_scan(predictions, offsets, predictions.len(), text_len);
    close_entity(done, current, text_len)
}

pub open spec fn span_views(s: Seq<EntitySpan>) -> Seq<SpanView> {
    s.map_values(|e: EntitySpan| e@)
}

fn close_current(done: &mut Vec<EntitySpan>, current: Option<EntitySpan>, text_len: usize)
    ensures
        span_views(final(done)@) == close_entity(
            span_views(old(done)@),
            match current {
                Some(s) => Some(s@),
                None => None,
            },
            text_len as nat,
        ),
{
    if let Some(span) = current {
        if span.end <= text_len {
            let ghost before = done@;
            done.push(span);
            proof {
                assert(span_views(done@) =~= span_views(before).push(done@.last()@));
            }
        }
    }
}

pub open spec fn opt_view(o: Option<EntitySpan>) -> Option<SpanView> {
    match o {
        Some(s) => Some(s@),
        None => None,
    }
}

/// Groups the labels the model gave the tokens of a text into entities.
/// `offsets[i]` is the byte range of token `i` in the text.
pub fn group_entities(predictions: &[u32], offsets: &[(usize, usize)], text_len: usize) -> (entities:
    Vec<EntitySpan>)
    requires
        offsets.len() >= predictions.len(),
    ensures
        span_views(entities@) == grouped_entities(predictions@, offsets@, text_len as nat),
{
    let mut done: Vec<EntitySpan> = Vec::new();
    let mut current: Option<EntitySpan> = None;
    let mut i: usize = 0;
    while i < predictions.len()
        invariant
            i <= predictions.len() <= offsets.len(),
            (span_views(done@), opt_view(current)) == group_scan(
                predictions@,
                offsets@,
                i as nat,
                text_len as nat,
            ),
        decreases predictions.len() - i,
    {
        let label = NerLabel::from_id(predictions[i] as usize);
        let (start, end) = offsets[i];
        if start == 0 && end == 0 && i > 0 {
        } else {
            match label.entity_type() {
                Some(t) => {
                    let same_kind = match &current {
                        Some(span) => span.entity_type == t,
                        None => false,
                    };
                    if label.is_begin() || !same_kind {
                        let previous = current;
                        close_current(&mut done, previous, text_len);
                        let mut tokens = Vec::new();
                        tokens.push(i);
                        current = Some(EntitySpan { entity_type: t, start, end, tokens });
                    } else {
                        let mut span = current.unwrap();
                        span.end = end;
                        span.tokens.push(i);
                        current = Some(span);
                    }
                },
                None => {
                    let previous = current;
                    close_current(&mut done, previous, text_len);
                    current = None;
                },
            }
        }
        i = i + 1;
    }
    close_current(&mut done, current, text_len);
    done
}

/// The grouping state invariant: closed entities end within the text and
/// every entity has at least one token.
pub open spec fn group_state_ok(state: GroupState, text_len: nat) -> bool {
    &&& forall|k: int|
        0 <= k < state.0.len() ==> (#[trigger] state.0[k]).end <= text_len && state.0[k].tokens.len() >= 1
    &&& state.1 matches Some(span) ==> span.tokens.len() >= 1
}

proof fn lemma_group_scan_ok(predictions: Seq<u32>, offsets: Seq<(usize, usize)>, n: nat, text_len: nat)
    requires
        n <= predictions.len(),
        n <= offsets.len(),
        n <= usize::MAX + 1,
    ensures
        group_state_ok(group_scan(predictions, offsets, n, text_len), text_len),
    decreases n,
{
    if n > 0 {
        lemma_group_scan_ok(predictions, offsets, (n - 1) as nat, text_len);
        let (done, current) = group_scan(predictions, offsets, (n - 1) as nat, text_len);
        let closed = close_entity(done, current, text_len);
        assert forall|k: int| 0 <= k < closed.len() implies (#[trigger] closed[k]).end <= text_len
            && closed[k].tokens.len() >= 1 by {
            if k < done.len() {
                assert(closed[k] == done[k]);
            }
        }
    }
}

/// Every entity the grouping gives ends within the text and is made of at
/// least one token.
pub proof fn law_grouped_entities_within_text(
    predictions: Seq<u32>,
    offsets: Seq<(usize, usize)>,
    text_len: nat,
)
    requires
        predictions.len() <= offsets.len(),
        predictions.len() <= usize::MAX,
    ensures
        forall|k: int|
            0 <= k < grouped_entities(predictions, offsets, text_len).len() ==> (#[trigger] grouped_entities(
                predictions,
                offsets,
                text_len,
            )[k]).end <= text_len && grouped_entities(predictions, offsets, text_len)[k].tokens.len() >= 1,
{
    lemma_group_scan_ok(predictions, offsets, predictions.len(), text_len);
    let (done, current) = group_scan(predictions, offsets, predictions.len(), text_len);
    let closed = close_entity(done, current, text_len);
    assert forall|k: int| 0 <= k < closed.len() implies (#[trigger] closed[k]).end <= text_len
        && closed[k].tokens.len() >= 1 by {
        if k < done.len() {
            assert(closed[k] == done[k]);
        }
    }
}

} // verus!
