//! Movie clips: timelines of frames, and the children that the frames
//! place.
//!
//! The frames of a timeline are deltas: each says what is placed, changed
//! and removed on entering it. A goto therefore replays frames, and it does
//! so without making an object only to remove it again: the deltas of the
//! frames on the way are merged into one command for each depth, and the
//! commands are carried out at the end.

use vstd::prelude::*;

verus! {

pub type Depth = i16;

pub type FrameNumber = u16;

pub type CharacterId = u16;

/// The identity of an instance of a character: no two instances that a clip
/// ever made share it.
pub type InstanceId = u64;

/// What a placement does at its depth.
#[derive(Copy, Clone, Debug, PartialEq, Eq, Structural)]
pub enum PlaceObjectAction {
    /// It places a new instance of a character.
    Place(CharacterId),
    /// It changes the instance that is there.
    Modify,
    /// It puts a new instance of a character in place of the one that is
    /// there.
    Replace(CharacterId),
}

/// A transformation of the plane. The four factors are binary32 numbers,
/// held by their bits; the shift along the axes is in twips.
#[derive(Copy, Clone, Debug, PartialEq, Eq, Structural)]
pub struct Matrix {
    pub a: u32,
    pub b: u32,
    pub c: u32,
    pub d: u32,
    pub tx: i32,
    pub ty: i32,
}

/// A transformation of colors: a factor for each channel, as the bits of a
/// binary32 number, and a summand.
#[derive(Copy, Clone, Debug, PartialEq, Eq, Structural)]
pub struct ColorTransform {
    pub r_mult: u32,
    pub g_mult: u32,
    pub b_mult: u32,
    pub a_mult: u32,
    pub r_add: i16,
    pub g_add: i16,
    pub b_add: i16,
    pub a_add: i16,
}

#[derive(Copy, Clone, Debug, PartialEq, Eq, Structural)]
pub struct Color {
    pub r: u8,
    pub g: u8,
    pub b: u8,
    pub a: u8,
}

/// A placement: what it does at which depth, and the display properties
/// that it sets. A property that it does not name stays as it is.
#[derive(Debug)]
pub struct PlaceObject {
    pub depth: Depth,
    pub action: PlaceObjectAction,
    pub matrix: Option<Matrix>,
    pub color_transform: Option<ColorTransform>,
    pub ratio: Option<u16>,
    pub name: Option<String>,
    pub clip_depth: Option<Depth>,
    pub class_name: Option<String>,
    pub background_color: Option<Color>,
}

pub struct PlaceView {
    pub depth: Depth,
    pub action: PlaceObjectAction,
    pub matrix: Option<Matrix>,
    pub color_transform: Option<ColorTransform>,
    pub ratio: Option<u16>,
    pub name: Option<Seq<char>>,
    pub clip_depth: Option<Depth>,
    pub class_name: Option<Seq<char>>,
    pub background_color: Option<Color>,
}

/// The text of an optional string.
pub open spec fn text_of(s: Option<String>) -> Option<Seq<char>> {
    match s {
        Some(t) => Some(t@),
        None => None,
    }
}

impl View for PlaceObject {
    type V = PlaceView;

    open spec fn view(&self) -> PlaceView {
        PlaceView {
            depth: self.depth,
            action: self.action,
            matrix: self.matrix,
            color_transform: self.color_transform,
            ratio: self.ratio,
            name: text_of(self.name),
            clip_depth: self.clip_depth,
            class_name: text_of(self.class_name),
            background_color: self.background_color,
        }
    }
}

/// The second of two optional values if there is one, else the first.
pub open spec fn newer<T>(current: Option<T>, next: Option<T>) -> Option<T> {
    match next {
        Some(_) => next,
        None => current,
    }
}

impl PlaceView {
    /// The display properties after a later placement set its own on top.
    /// The depth and what the placement does stay.
    pub open spec fn overlay(self, next: PlaceView) -> PlaceView {
        PlaceView {
            depth: self.depth,
            action: self.action,
            matrix: newer(self.matrix, next.matrix),
            color_transform: newer(self.color_transform, next.color_transform),
            ratio: newer(self.ratio, next.ratio),
            name: newer(self.name, next.name),
            clip_depth: newer(self.clip_depth, next.clip_depth),
            class_name: newer(self.class_name, next.class_name),
            background_color: newer(self.background_color, next.background_color),
        }
    }
}

fn newer_text(current: Option<String>, next: Option<String>) -> (r: Option<String>)
    ensures
        text_of(r) == newer(text_of(current), text_of(next)),
{
    match next {
        Some(t) => Some(t),
        None => current,
    }
}

impl PlaceObject {
    /// A copy of the placement.
    pub fn duplicate(&self) -> (r: PlaceObject)
        ensures
            r@ == self@,
    {
        PlaceObject {
            depth: self.depth,
            action: self.action,
            matrix: self.matrix,
            color_transform: self.color_transform,
            ratio: self.ratio,
            name: match &self.name {
                Some(n) => Some(n.clone()),
                None => None,
            },
            clip_depth: self.clip_depth,
            class_name: match &self.class_name {
                Some(n) => Some(n.clone()),
                None => None,
            },
            background_color: self.background_color,
        }
    }

    /// Sets the display properties of a later placement on top of these.
    pub fn overlay(&mut self, next: PlaceObject)
        ensures
            final(self)@ == old(self)@.overlay(next@),
    {
        if next.matrix.is_some() {
            self.matrix = next.matrix;
        }
        if next.color_transform.is_some() {
            self.color_transform = next.color_transform;
        }
        if next.ratio.is_some() {
            self.ratio = next.ratio;
        }
        if next.clip_depth.is_some() {
            self.clip_depth = next.clip_depth;
        }
        if next.background_color.is_some() {
            self.background_color = next.background_color;
        }
        let mut name: Option<String> = None;
        core::mem::swap(&mut name, &mut self.name);
        self.name = newer_text(name, next.name);
        let mut class_name: Option<String> = None;
        core::mem::swap(&mut class_name, &mut self.class_name);
        self.class_name = newer_text(class_name, next.class_name);
    }
}

/// The placement at a depth that a goto has gathered so far, and the frame
/// in which the character at that depth was placed.
#[derive(Debug)]
pub struct GotoPlaceObject {
    pub frame: FrameNumber,
    pub place_object: PlaceObject,
}

pub struct GotoView {
    pub frame: FrameNumber,
    pub place_object: PlaceView,
}

impl View for GotoPlaceObject {
    type V = GotoView;

    open spec fn view(&self) -> GotoView {
        GotoView { frame: self.frame, place_object: self.place_object@ }
    }
}

impl GotoView {
    /// The character that the placement places; 0 for one that places none.
    pub open spec fn id(self) -> CharacterId {
        match self.place_object.action {
            PlaceObjectAction::Place(id) => id,
            PlaceObjectAction::Replace(id) => id,
            PlaceObjectAction::Modify => 0,
        }
    }

    /// The placement with a later one at the same depth merged into it. A
    /// later placement that only changes what is there keeps the character
    /// and the frame in which it was placed; any other brings its own. The
    /// display properties of the later placement go on top.
    pub open spec fn merge(self, next: GotoView) -> GotoView {
        let merged = self.place_object.overlay(next.place_object);
        match next.place_object.action {
            PlaceObjectAction::Modify => GotoView { frame: self.frame, place_object: merged },
            action => GotoView {
                frame: next.frame,
                place_object: PlaceView { action, ..merged },
            },
        }
    }
}

impl GotoPlaceObject {
    /// The character that the placement places; 0 for one that places none.
    pub fn id(&self) -> (r: CharacterId)
        ensures
            r == self@.id(),
    {
        match self.place_object.action {
            PlaceObjectAction::Place(id) => id,
            PlaceObjectAction::Replace(id) => id,
            PlaceObjectAction::Modify => 0,
        }
    }

    /// Whether the placement puts its character in place of another.
    pub fn modifies_original_item(&self) -> (r: bool)
        ensures
            r == (self@.place_object.action is Replace),
    {
        match self.place_object.action {
            PlaceObjectAction::Replace(_) => true,
            _ => false,
        }
    }

    /// Merges a later placement at the same depth into this one.
    pub fn merge(&mut self, next: GotoPlaceObject)
        ensures
            final(self)@ == old(self)@.merge(next@),
    {
        match next.place_object.action {
            PlaceObjectAction::Modify => {},
            action => {
                self.place_object.action = action;
                self.frame = next.frame;
            },
        }
        let ghost acted = self.place_object@;
        self.place_object.overlay(next.place_object);
        assert(self@.place_object == old(self)@.merge(next@).place_object);
    }
}

/// What a frame of a timeline holds.
#[derive(Debug)]
pub enum TimelineTag {
    /// A placement.
    PlaceObject(PlaceObject),
    /// The removal of what is at a depth.
    RemoveObject { depth: Depth },
    /// Script code to run, by its number.
    DoAction(u32),
    /// A label of the frame.
    FrameLabel(String),
    /// Anything else.
    Other,
}

pub enum TagView {
    PlaceObject(PlaceView),
    RemoveObject { depth: Depth },
    DoAction(u32),
    FrameLabel(Seq<char>),
    Other,
}

impl View for TimelineTag {
    type V = TagView;

    open spec fn view(&self) -> TagView {
        match self {
            TimelineTag::PlaceObject(p) => TagView::PlaceObject(p@),
            TimelineTag::RemoveObject { depth } => TagView::RemoveObject { depth: *depth },
            TimelineTag::DoAction(code) => TagView::DoAction(*code),
            TimelineTag::FrameLabel(label) => TagView::FrameLabel(label@),
            TimelineTag::Other => TagView::Other,
        }
    }
}

/// A child of a clip: an instance of a character at a depth, the frame in
/// which it was placed, and its display properties.
#[derive(Debug)]
pub struct Child {
    pub depth: Depth,
    pub id: CharacterId,
    pub instance: InstanceId,
    pub place_frame: FrameNumber,
    pub display: PlaceObject,
}

pub struct ChildView {
    pub depth: Depth,
    pub id: CharacterId,
    pub instance: InstanceId,
    pub place_frame: FrameNumber,
    pub display: PlaceView,
}

impl View for Child {
    type V = ChildView;

    open spec fn view(&self) -> ChildView {
        ChildView {
            depth: self.depth,
            id: self.id,
            instance: self.instance,
            place_frame: self.place_frame,
            display: self.display@,
        }
    }
}

/// The display properties of a new instance: none is set.
pub open spec fn blank(depth: Depth, id: CharacterId) -> PlaceView {
    PlaceView {
        depth,
        action: PlaceObjectAction::Place(id),
        matrix: None,
        color_transform: None,
        ratio: None,
        name: None,
        clip_depth: None,
        class_name: None,
        background_color: None,
    }
}

/// The position of the child at a depth: the first child there.
pub open spec fn child_index(children: Seq<ChildView>, depth: Depth) -> Option<int>
    decreases children.len(),
{
    if children.len() == 0 {
        None
    } else {
        match child_index(children.drop_last(), depth) {
            Some(i) => Some(i),
            None => if children.last().depth == depth {
                Some(children.len() - 1)
            } else {
                None
            },
        }
    }
}

/// The position of the command for a depth.
pub open spec fn command_index(commands: Seq<GotoView>, depth: Depth) -> Option<int>
    decreases commands.len(),
{
    if commands.len() == 0 {
        None
    } else {
        match command_index(commands.drop_last(), depth) {
            Some(i) => Some(i),
            None => if commands.last().place_object.depth == depth {
                Some(commands.len() - 1)
            } else {
                None
            },
        }
    }
}

/// Whether a child was placed in the frame or before.
pub open spec fn placed_by(frame: FrameNumber) -> spec_fn(ChildView) -> bool {
    |c: ChildView| c.place_frame <= frame
}

/// What a goto has gathered, and the children that are there.
pub struct Gathered {
    pub commands: Seq<GotoView>,
    pub children: Seq<ChildView>,
}

/// What a tag of a frame on the way of a goto does: a placement becomes
/// the command for its depth or is merged into it; a removal drops the
/// command for its depth and, unless the goto is a rewind, removes the child
/// at that depth at once.
pub open spec fn gather_tag(
    state: Gathered,
    tag: TagView,
    frame: FrameNumber,
    is_rewind: bool,
) -> Gathered {
    match tag {
        TagView::PlaceObject(place_object) => {
            let next = GotoView { frame, place_object };
            match command_index(state.commands, place_object.depth) {
                Some(i) => Gathered {
                    commands: state.commands.update(i, state.commands[i].merge(next)),
                    ..state
                },
                None => Gathered { commands: state.commands.push(next), ..state },
            }
        },
        TagView::RemoveObject { depth } => {
            let commands = match command_index(state.commands, depth) {
                Some(i) => state.commands.remove(i),
                None => state.commands,
            };
            let children = if is_rewind {
                state.children
            } else {
                match child_index(state.children, depth) {
                    Some(i) => state.children.remove(i),
                    None => state.children,
                }
            };
            Gathered { commands, children }
        },
        _ => state,
    }
}

/// What the first `upto` tags of a frame do.
pub open spec fn gather_tags(
    state: Gathered,
    tags: Seq<TagView>,
    frame: FrameNumber,
    is_rewind: bool,
    upto: nat,
) -> Gathered
    decreases upto,
{
    if upto == 0 {
        state
    } else {
        gather_tag(
            gather_tags(state, tags, frame, is_rewind, (upto - 1) as nat),
            tags[upto - 1],
            frame,
            is_rewind,
        )
    }
}

/// The tags of a frame; none for a frame that the timeline does not have.
pub open spec fn tags_of(frames: Seq<Seq<TagView>>, frame: FrameNumber) -> Seq<TagView> {
    if 1 <= frame <= frames.len() {
        frames[frame - 1]
    } else {
        Seq::empty()
    }
}

/// What the frames after `from` up to `to` do.
pub open spec fn gather_frames(
    state: Gathered,
    frames: Seq<Seq<TagView>>,
    from: FrameNumber,
    to: FrameNumber,
    is_rewind: bool,
) -> Gathered
    decreases to,
{
    if to <= from {
        state
    } else {
        gather_tags(
            gather_frames(state, frames, from, (to - 1) as u16, is_rewind),
            tags_of(frames, to),
            to,
            is_rewind,
            tags_of(frames, to).len(),
        )
    }
}

/// The children of a clip, and the identity of the next instance.
pub struct Placed {
    pub children: Seq<ChildView>,
    pub next_instance: InstanceId,
}

/// What carrying out a command does: the child at the depth of the command
/// takes its display properties; where there is none, a new instance of the
/// character is made first, with the frame of the command as the frame in
/// which it was placed. A character that the library does not have is not
/// instantiated.
pub open spec fn run_command(state: Placed, command: GotoView, library: Seq<CharacterId>) -> Placed {
    match child_index(state.children, command.place_object.depth) {
        Some(i) => Placed {
            children: state.children.update(
                i,
                ChildView {
                    display: state.children[i].display.overlay(command.place_object),
                    ..state.children[i]
                },
            ),
            ..state
        },
        None => if library.contains(command.id()) && state.next_instance < u64::MAX {
            Placed {
                children: state.children.push(
                    ChildView {
                        depth: command.place_object.depth,
                        id: command.id(),
                        instance: state.next_instance,
                        place_frame: command.frame,
                        display: blank(command.place_object.depth, command.id()).overlay(
                            command.place_object,
                        ),
                    },
                ),
                next_instance: (state.next_instance + 1) as u64,
            }
        } else {
            state
        },
    }
}

/// What carrying out the first `upto` commands does, of those that placed
/// their character before the frame of the goto (`early`) or of the others.
pub open spec fn run_commands(
    state: Placed,
    commands: Seq<GotoView>,
    frame: FrameNumber,
    early: bool,
    library: Seq<CharacterId>,
    upto: nat,
) -> Placed
    decreases upto,
{
    if upto == 0 {
        state
    } else {
        let before = run_commands(state, commands, frame, early, library, (upto - 1) as nat);
        if (commands[upto - 1].frame < frame) == early {
            run_command(before, commands[upto - 1], library)
        } else {
            before
        }
    }
}

/// The script code that the first `upto` tags of a frame queue.
pub open spec fn actions_of(tags: Seq<TagView>, upto: nat) -> Seq<u32>
    decreases upto,
{
    if upto == 0 {
        Seq::empty()
    } else {
        match tags[upto - 1] {
            TagView::DoAction(code) => actions_of(tags, (upto - 1) as nat).push(code),
            _ => actions_of(tags, (upto - 1) as nat),
        }
    }
}

/// A movie clip.
#[derive(Debug)]
pub struct MovieClip {
    pub total_frames: FrameNumber,
    pub current_frame: FrameNumber,
    pub is_playing: bool,
    /// The tags of the frames, the first frame first.
    pub frames: Vec<Vec<TimelineTag>>,
    /// The children, in the order in which they were placed.
    pub children: Vec<Child>,
    /// The identity of the next instance.
    pub next_instance: InstanceId,
    /// The script code that frames queued, the oldest first.
    pub queued_actions: Vec<u32>,
    /// The labels of the frames, in the order of the frames.
    pub frame_labels: Vec<FrameLabel>,
}

/// A label and the frame that has it.
#[derive(Debug)]
pub struct FrameLabel {
    pub label: String,
    pub frame: FrameNumber,
}

pub struct LabelView {
    pub label: Seq<char>,
    pub frame: FrameNumber,
}

impl View for FrameLabel {
    type V = LabelView;

    open spec fn view(&self) -> LabelView {
        LabelView { label: self.label@, frame: self.frame }
    }
}

/// The views of a list of labels.
pub open spec fn label_views(labels: Seq<FrameLabel>) -> Seq<LabelView> {
    Seq::new(labels.len(), |i: int| labels[i]@)
}

/// The frame of a label: that of the last frame that has the label.
pub open spec fn label_frame(labels: Seq<LabelView>, label: Seq<char>) -> Option<FrameNumber>
    decreases labels.len(),
{
    if labels.len() == 0 {
        None
    } else if labels.last().label == label {
        Some(labels.last().frame)
    } else {
        label_frame(labels.drop_last(), label)
    }
}

/// The labels of the first `upto` tags of a frame.
pub open spec fn labels_of_tags(tags: Seq<TagView>, frame: FrameNumber, upto: nat) -> Seq<LabelView>
    decreases upto,
{
    if upto == 0 {
        Seq::empty()
    } else {
        match tags[upto - 1] {
            TagView::FrameLabel(label) => labels_of_tags(tags, frame, (upto - 1) as nat).push(
                LabelView { label, frame },
            ),
            _ => labels_of_tags(tags, frame, (upto - 1) as nat),
        }
    }
}

/// The labels of the first `upto` frames.
pub open spec fn labels_of_frames(frames: Seq<Seq<TagView>>, upto: nat) -> Seq<LabelView>
    decreases upto,
{
    if upto == 0 {
        Seq::empty()
    } else {
        labels_of_frames(frames, (upto - 1) as nat) + labels_of_tags(
            frames[upto - 1],
            upto as u16,
            frames[upto - 1].len(),
        )
    }
}

/// The position of the child of a name. Children are found in the order of
/// their depths: of several children of the name it is the one at the lowest
/// depth, and among those at one depth the first.
pub open spec fn named_child(children: Seq<ChildView>, name: Seq<char>) -> Option<int>
    decreases children.len(),
{
    if children.len() == 0 {
        None
    } else {
        let last = children.last();
        match named_child(children.drop_last(), name) {
            Some(i) => if last.display.name == Some(name) && last.depth < children[i].depth {
                Some(children.len() - 1)
            } else {
                Some(i)
            },
            None => if last.display.name == Some(name) {
                Some(children.len() - 1)
            } else {
                None
            },
        }
    }
}

/// What `named_child` returns: a child of the name below which no other
/// child of the name stands, or none where no child has the name.
pub proof fn lemma_named_child(children: Seq<ChildView>, name: Seq<char>)
    ensures
        match named_child(children, name) {
            Some(i) => 0 <= i < children.len() && children[i].display.name == Some(name)
                && forall|j: int|
                0 <= j < children.len() && (#[trigger] children[j]).display.name == Some(name)
                    ==> children[i].depth <= children[j].depth,
            None => forall|j: int|
                0 <= j < children.len() ==> (#[trigger] children[j]).display.name != Some(name),
        },
    decreases children.len(),
{
    if children.len() > 0 {
        let front = children.drop_last();
        lemma_named_child(front, name);
        assert forall|j: int| 0 <= j < front.len() implies front[j] == children[j] by {}
        match named_child(children, name) {
            Some(i) => {
                assert forall|j: int|
                    0 <= j < children.len() && (#[trigger] children[j]).display.name == Some(
                        name,
                    ) implies children[i].depth <= children[j].depth by {
                    if j < front.len() {
                        assert(front[j] == children[j]);
                    }
                }
            },
            None => {
                assert forall|j: int| 0 <= j < children.len() implies (
                #[trigger] children[j]).display.name != Some(name) by {
                    if j < front.len() {
                        assert(front[j] == children[j]);
                    }
                }
            },
        }
    }
}

pub struct ClipView {
    pub total_frames: FrameNumber,
    pub current_frame: FrameNumber,
    pub is_playing: bool,
    pub frames: Seq<Seq<TagView>>,
    pub children: Seq<ChildView>,
    pub next_instance: InstanceId,
    pub queued_actions: Seq<u32>,
    pub frame_labels: Seq<LabelView>,
}

/// The views of a list of tags.
pub open spec fn tag_views(tags: Seq<TimelineTag>) -> Seq<TagView> {
    Seq::new(tags.len(), |i: int| tags[i]@)
}

/// The views of a list of children.
pub open spec fn child_views(children: Seq<Child>) -> Seq<ChildView> {
    Seq::new(children.len(), |i: int| children[i]@)
}

/// The views of a list of commands.
pub open spec fn command_views(commands: Seq<GotoPlaceObject>) -> Seq<GotoView> {
    Seq::new(commands.len(), |i: int| commands[i]@)
}

impl View for MovieClip {
    type V = ClipView;

    open spec fn view(&self) -> ClipView {
        ClipView {
            total_frames: self.total_frames,
            current_frame: self.current_frame,
            is_playing: self.is_playing,
            frames: Seq::new(self.frames@.len(), |i: int| tag_views(self.frames@[i]@)),
            children: child_views(self.children@),
            next_instance: self.next_instance,
            queued_actions: self.queued_actions@,
            frame_labels: label_views(self.frame_labels@),
        }
    }
}

impl ClipView {
    /// The clip after a goto to a frame.
    ///
    /// A frame beyond the last counts as the last. A goto to an earlier
    /// frame is a rewind: it removes the children that were placed after that
    /// frame and replays the timeline from its beginning; any other goto
    /// replays the frames after the current one. The commands that were
    /// gathered on the way are carried out around the frame itself: first
    /// those whose character was placed before the frame, then the script
    /// code of the frame is queued, then the others.
    pub open spec fn goto(self, frame: FrameNumber, library: Seq<CharacterId>) -> ClipView {
        let target: FrameNumber = if frame > self.total_frames {
            self.total_frames
        } else {
            frame
        };
        let is_rewind = target < self.current_frame;
        let start = Gathered {
            commands: Seq::empty(),
            children: if is_rewind {
                self.children.filter(placed_by(target))
            } else {
                self.children
            },
        };
        let from: FrameNumber = if is_rewind {
            0
        } else {
            self.current_frame
        };
        let gathered = gather_frames(start, self.frames, from, target, is_rewind);
        let early = run_commands(
            Placed { children: gathered.children, next_instance: self.next_instance },
            gathered.commands,
            target,
            true,
            library,
            gathered.commands.len(),
        );
        let late = run_commands(
            early,
            gathered.commands,
            target,
            false,
            library,
            gathered.commands.len(),
        );
        ClipView {
            current_frame: target,
            children: late.children,
            next_instance: late.next_instance,
            queued_actions: self.queued_actions + actions_of(
                tags_of(self.frames, target),
                tags_of(self.frames, target).len(),
            ),
            ..self
        }
    }
}

fn find_child(children: &Vec<Child>, depth: Depth) -> (r: Option<usize>)
    ensures
        match r {
            Some(i) => child_index(child_views(children@), depth) == Some(i as int) && i
                < children@.len() && children@[i as int].depth == depth,
            None => child_index(child_views(children@), depth) is None,
        },
{
    let ghost views = child_views(children@);
    let mut i: usize = 0;
    assert(views.take(0) =~= Seq::empty());
    while i < children.len()
        invariant
            i <= children@.len(),
            views == child_views(children@),
            child_index(views.take(i as int), depth) is None,
        decreases children@.len() - i,
    {
        proof {
            assert(views.take(i as int + 1).drop_last() =~= views.take(i as int));
            assert(views.take(i as int + 1).last() == children@[i as int]@);
        }
        if children[i].depth == depth {
            proof {
                lemma_child_index_prefix(views, depth, i as int + 1);
            }
            return Some(i);
        }
        i = i + 1;
    }
    assert(views.take(i as int) =~= views);
    None
}

proof fn lemma_child_index_prefix(children: Seq<ChildView>, depth: Depth, n: int)
    requires
        0 <= n <= children.len(),
        child_index(children.take(n), depth) is Some,
    ensures
        child_index(children, depth) == child_index(children.take(n), depth),
    decreases children.len() - n,
{
    if n < children.len() {
        assert(children.take(n + 1).drop_last() =~= children.take(n));
        lemma_child_index_prefix(children, depth, n + 1);
    } else {
        assert(children.take(n) =~= children);
    }
}

fn find_command(commands: &Vec<GotoPlaceObject>, depth: Depth) -> (r: Option<usize>)
    ensures
        match r {
            Some(i) => command_index(command_views(commands@), depth) == Some(i as int) && i
                < commands@.len(),
            None => command_index(command_views(commands@), depth) is None,
        },
{
    let ghost views = command_views(commands@);
    let mut i: usize = 0;
    assert(views.take(0) =~= Seq::empty());
    while i < commands.len()
        invariant
            i <= commands@.len(),
            views == command_views(commands@),
            command_index(views.take(i as int), depth) is None,
        decreases commands@.len() - i,
    {
        proof {
            assert(views.take(i as int + 1).drop_last() =~= views.take(i as int));
            assert(views.take(i as int + 1).last() == commands@[i as int]@);
        }
        if commands[i].place_object.depth == depth {
            proof {
                lemma_command_index_prefix(views, depth, i as int + 1);
            }
            return Some(i);
        }
        i = i + 1;
    }
    assert(views.take(i as int) =~= views);
    None
}

proof fn lemma_command_index_prefix(commands: Seq<GotoView>, depth: Depth, n: int)
    requires
        0 <= n <= commands.len(),
        command_index(commands.take(n), depth) is Some,
    ensures
        command_index(commands, depth) == command_index(commands.take(n), depth),
    decreases commands.len() - n,
{
    if n < commands.len() {
        assert(commands.take(n + 1).drop_last() =~= commands.take(n));
        lemma_command_index_prefix(commands, depth, n + 1);
    } else {
        assert(commands.take(n) =~= commands);
    }
}

fn holds_character(library: &Vec<CharacterId>, id: CharacterId) -> (r: bool)
    ensures
        r == library@.contains(id),
{
    let mut i: usize = 0;
    while i < library.len()
        invariant
            i <= library@.len(),
            forall|j: int| 0 <= j < i ==> library@[j] != id,
        decreases library@.len() - i,
    {
        if library[i] == id {
            return true;
        }
        i = i + 1;
    }
    false
}

impl MovieClip {
    /// A clip with the given frames. It plays if it has more than one
    /// frame, and stands before its first frame.
    pub fn new_with_data(frames: Vec<Vec<TimelineTag>>) -> (r: MovieClip)
        requires
            frames@.len() <= u16::MAX,
        ensures
            r@.total_frames == frames@.len(),
            r@.current_frame == 0,
            r@.is_playing,
            r@.frames == Seq::new(frames@.len(), |i: int| tag_views(frames@[i]@)),
            r@.children.len() == 0,
            r@.next_instance == 0,
            r@.queued_actions.len() == 0,
            r@.frame_labels.len() == 0,
            children_distinct(r@.children, r@.next_instance),
    {
        MovieClip {
            total_frames: frames.len() as u16,
            current_frame: 0,
            is_playing: true,
            frames,
            children: Vec::new(),
            next_instance: 0,
            queued_actions: Vec::new(),
            frame_labels: Vec::new(),
        }
    }

    pub fn playing(&self) -> (r: bool)
        ensures
            r == self@.is_playing,
    {
        self.is_playing
    }

    /// Plays the clip, if it has more than one frame.
    pub fn play(&mut self)
        ensures
            final(self)@ == (ClipView {
                is_playing: old(self)@.is_playing || old(self)@.total_frames > 1,
                ..old(self)@
            }),
    {
        if self.total_frames > 1 {
            self.is_playing = true;
        }
    }

    pub fn stop(&mut self)
        ensures
            final(self)@ == (ClipView { is_playing: false, ..old(self)@ }),
    {
        self.is_playing = false;
    }

    pub fn current_frame(&self) -> (r: FrameNumber)
        ensures
            r == self@.current_frame,
    {
        self.current_frame
    }

    pub fn total_frames(&self) -> (r: FrameNumber)
        ensures
            r == self@.total_frames,
    {
        self.total_frames
    }

    pub fn frames_loaded(&self) -> (r: FrameNumber)
        ensures
            r == self@.total_frames,
    {
        self.total_frames
    }

    /// What a `gotoFrame` asks for: the frame to go to, unless the clip is
    /// there already. The clip stops or plays as it is told.
    pub fn goto_frame(&mut self, frame: FrameNumber, stop: bool) -> (r: Option<FrameNumber>)
        ensures
            r == (if frame != old(self)@.current_frame {
                Some(frame)
            } else {
                None
            }),
            final(self)@ == (ClipView {
                is_playing: if stop {
                    false
                } else {
                    old(self)@.is_playing || old(self)@.total_frames > 1
                },
                ..old(self)@
            }),
    {
        if stop {
            self.stop();
        } else {
            self.play();
        }
        if frame != self.current_frame {
            Some(frame)
        } else {
            None
        }
    }

    /// What `nextFrame` asks for: the next frame, unless the clip stands at
    /// its last. The clip stops.
    pub fn next_frame(&mut self) -> (r: Option<FrameNumber>)
        ensures
            old(self)@.current_frame < old(self)@.total_frames ==> r == Some(
                (old(self)@.current_frame + 1) as u16,
            ) && final(self)@ == (ClipView { is_playing: false, ..old(self)@ }),
            old(self)@.current_frame >= old(self)@.total_frames ==> r is None && final(self)@
                == old(self)@,
    {
        if self.current_frame < self.total_frames {
            let next: FrameNumber = self.current_frame + 1;
            self.goto_frame(next, true)
        } else {
            None
        }
    }

    /// What `prevFrame` asks for: the frame before, unless the clip stands
    /// at its first. The clip stops.
    pub fn prev_frame(&mut self) -> (r: Option<FrameNumber>)
        ensures
            old(self)@.current_frame > 1 ==> r == Some((old(self)@.current_frame - 1) as u16)
                && final(self)@ == (ClipView { is_playing: false, ..old(self)@ }),
            old(self)@.current_frame <= 1 ==> r is None && final(self)@ == old(self)@,
    {
        if self.current_frame > 1 {
            let previous: FrameNumber = self.current_frame - 1;
            self.goto_frame(previous, true)
        } else {
            None
        }
    }

    /// Removes the children that were placed after a frame.
    fn remove_after(&mut self, frame: FrameNumber)
        ensures
            final(self)@ == (ClipView {
                children: old(self)@.children.filter(placed_by(frame)),
                ..old(self)@
            }),
    {
        let ghost before = self@.children;
        let ghost keep = placed_by(frame);
        let mut i: usize = 0;
        let ghost mut done: int = 0;
        proof {
            assert(before.take(0) =~= Seq::empty());
            assert(before.skip(0) =~= before);
            reveal(Seq::filter);
            assert(before.take(0).filter(keep) =~= Seq::empty());
        }
        while i < self.children.len()
            invariant
                0 <= done <= before.len(),
                before == old(self)@.children,
                keep == placed_by(frame),
                self.total_frames == old(self).total_frames,
                self.current_frame == old(self).current_frame,
                self.is_playing == old(self).is_playing,
                self.frames == old(self).frames,
                self.next_instance == old(self).next_instance,
                self.queued_actions == old(self).queued_actions,
                self.frame_labels == old(self).frame_labels,
                i == before.take(done).filter(keep).len(),
                self@.children == before.take(done).filter(keep) + before.skip(done),
            decreases before.len() - done,
        {
            let ghost kept = before.take(done).filter(keep);
            let ghost current = self@.children;
            proof {
                assert(self@.children[i as int] == before.skip(done)[0]);
                assert(before.take(done + 1) =~= before.take(done).push(before[done]));
                before.take(done).lemma_filter_push(before[done], keep);
            }
            if self.children[i].place_frame > frame {
                self.children.remove(i);
                assert(self@.children =~= current.remove(i as int));
                assert(self@.children =~= kept + before.skip(done + 1));
            } else {
                assert(self@.children =~= kept.push(before[done]) + before.skip(done + 1));
                i = i + 1;
            }
            proof {
                done = done + 1;
            }
        }
        proof {
            assert(before.take(done) =~= before);
            assert(self@.children =~= before.filter(keep));
        }
    }

    /// Gathers what the tags of a frame do.
    fn gather(&mut self, commands: &mut Vec<GotoPlaceObject>, frame: FrameNumber, is_rewind: bool)
        ensures
            final(self)@ == (ClipView {
                children: gather_tags(
                    Gathered {
                        commands: command_views(old(commands)@),
                        children: old(self)@.children,
                    },
                    tags_of(old(self)@.frames, frame),
                    frame,
                    is_rewind,
                    tags_of(old(self)@.frames, frame).len(),
                ).children,
                ..old(self)@
            }),
            command_views(final(commands)@) == gather_tags(
                Gathered { commands: command_views(old(commands)@), children: old(self)@.children },
                tags_of(old(self)@.frames, frame),
                frame,
                is_rewind,
                tags_of(old(self)@.frames, frame).len(),
            ).commands,
    {
        if frame == 0 || frame as usize > self.frames.len() {
            return ;
        }
        let index: usize = (frame - 1) as usize;
        let ghost tags = tags_of(self@.frames, frame);
        let ghost start = Gathered {
            commands: command_views(commands@),
            children: self@.children,
        };
        let mut i: usize = 0;
        while i < self.frames[index].len()
            invariant
                index < self.frames@.len(),
                index == frame - 1,
                i <= self.frames@[index as int]@.len(),
                tags == tags_of(self@.frames, frame),
                tags == tag_views(self.frames@[index as int]@),
                self.total_frames == old(self).total_frames,
                self.current_frame == old(self).current_frame,
                self.is_playing == old(self).is_playing,
                self.frames == old(self).frames,
                self.next_instance == old(self).next_instance,
                self.queued_actions == old(self).queued_actions,
                self.frame_labels == old(self).frame_labels,
                start == (Gathered {
                    commands: command_views(old(commands)@),
                    children: old(self)@.children,
                }),
                gather_tags(start, tags, frame, is_rewind, i as nat) == (Gathered {
                    commands: command_views(commands@),
                    children: self@.children,
                }),
            decreases self.frames@[index as int]@.len() - i,
        {
            let ghost before_commands = command_views(commands@);
            let ghost before_children = self@.children;
            assert(tags[i as int] == self.frames@[index as int]@[i as int]@);
            match &self.frames[index][i] {
                TimelineTag::PlaceObject(place_object) => {
                    let next = GotoPlaceObject { frame, place_object: place_object.duplicate() };
                    match find_command(commands, place_object.depth) {
                        Some(k) => {
                            commands[k].merge(next);
                            assert(command_views(commands@) =~= before_commands.update(
                                k as int,
                                before_commands[k as int].merge(next@),
                            ));
                        },
                        None => {
                            commands.push(next);
                            assert(command_views(commands@) =~= before_commands.push(next@));
                        },
                    }
                },
                TimelineTag::RemoveObject { depth } => {
                    let depth: Depth = *depth;
                    match find_command(commands, depth) {
                        Some(k) => {
                            commands.remove(k);
                            assert(command_views(commands@) =~= before_commands.remove(k as int));
                        },
                        None => {},
                    }
                    if !is_rewind {
                        match find_child(&self.children, depth) {
                            Some(k) => {
                                self.children.remove(k);
                                assert(self@.children =~= before_children.remove(k as int));
                            },
                            None => {},
                        }
                    }
                },
                _ => {},
            }
            i = i + 1;
        }
    }

    /// Carries out the commands of a goto: those whose character was placed
    /// before the frame of the goto if `early` is set, the others if not.
    fn run_goto_commands(
        &mut self,
        commands: &Vec<GotoPlaceObject>,
        frame: FrameNumber,
        early: bool,
        library: &Vec<CharacterId>,
    )
        ensures
            final(self)@ == (ClipView {
                children: run_commands(
                    Placed {
                        children: old(self)@.children,
                        next_instance: old(self)@.next_instance,
                    },
                    command_views(commands@),
                    frame,
                    early,
                    library@,
                    commands@.len(),
                ).children,
                next_instance: run_commands(
                    Placed {
                        children: old(self)@.children,
                        next_instance: old(self)@.next_instance,
                    },
                    command_views(commands@),
                    frame,
                    early,
                    library@,
                    commands@.len(),
                ).next_instance,
                ..old(self)@
            }),
    {
        let ghost start = Placed {
            children: self@.children,
            next_instance: self@.next_instance,
        };
        let mut i: usize = 0;
        while i < commands.len()
            invariant
                i <= commands@.len(),
                self.total_frames == old(self).total_frames,
                self.current_frame == old(self).current_frame,
                self.is_playing == old(self).is_playing,
                self.frames == old(self).frames,
                self.queued_actions == old(self).queued_actions,
                self.frame_labels == old(self).frame_labels,
                start == (Placed {
                    children: old(self)@.children,
                    next_instance: old(self)@.next_instance,
                }),
                run_commands(start, command_views(commands@), frame, early, library@, i as nat) == (
                Placed { children: self@.children, next_instance: self@.next_instance }),
            decreases commands@.len() - i,
        {
            let command = &commands[i];
            assert(command_views(commands@)[i as int] == command@);
            if (command.frame < frame) == early {
                let ghost before = self@.children;
                match find_child(&self.children, command.place_object.depth) {
                    Some(k) => {
                        self.children[k].display.overlay(command.place_object.duplicate());
                        assert(self@.children =~= before.update(
                            k as int,
                            ChildView {
                                display: before[k as int].display.overlay(command@.place_object),
                                ..before[k as int]
                            },
                        ));
                    },
                    None => {
                        if holds_character(library, command.id()) && self.next_instance < u64::MAX {
                            let mut display = PlaceObject {
                                depth: command.place_object.depth,
                                action: PlaceObjectAction::Place(command.id()),
                                matrix: None,
                                color_transform: None,
                                ratio: None,
                                name: None,
                                clip_depth: None,
                                class_name: None,
                                background_color: None,
                            };
                            display.overlay(command.place_object.duplicate());
                            let child = Child {
                                depth: command.place_object.depth,
                                id: command.id(),
                                instance: self.next_instance,
                                place_frame: command.frame,
                                display,
                            };
                            self.children.push(child);
                            self.next_instance = self.next_instance + 1;
                            assert(self@.children =~= before.push(child@));
                        }
                    },
                }
            }
            i = i + 1;
        }
    }

    /// Queues the script code of a frame.
    fn queue_actions(&mut self, frame: FrameNumber)
        ensures
            final(self)@ == (ClipView {
                queued_actions: old(self)@.queued_actions + actions_of(
                    tags_of(old(self)@.frames, frame),
                    tags_of(old(self)@.frames, frame).len(),
                ),
                ..old(self)@
            }),
    {
        if frame == 0 || frame as usize > self.frames.len() {
            assert(self@.queued_actions + Seq::<u32>::empty() =~= self@.queued_actions);
            return ;
        }
        let index: usize = (frame - 1) as usize;
        let ghost tags = tags_of(self@.frames, frame);
        let mut i: usize = 0;
        assert(self@.queued_actions + Seq::<u32>::empty() =~= self@.queued_actions);
        while i < self.frames[index].len()
            invariant
                index < self.frames@.len(),
                i <= self.frames@[index as int]@.len(),
                tags == tag_views(self.frames@[index as int]@),
                tags == tags_of(old(self)@.frames, frame),
                self.total_frames == old(self).total_frames,
                self.current_frame == old(self).current_frame,
                self.is_playing == old(self).is_playing,
                self.frames == old(self).frames,
                self.children == old(self).children,
                self.next_instance == old(self).next_instance,
                self.frame_labels == old(self).frame_labels,
                self.queued_actions@ == old(self).queued_actions@ + actions_of(tags, i as nat),
            decreases self.frames@[index as int]@.len() - i,
        {
            assert(tags[i as int] == self.frames@[index as int]@[i as int]@);
            let ghost before = self.queued_actions@;
            match &self.frames[index][i] {
                TimelineTag::DoAction(code) => {
                    let code: u32 = *code;
                    self.queued_actions.push(code);
                    assert(self.queued_actions@ =~= old(self).queued_actions@ + actions_of(
                        tags,
                        (i + 1) as nat,
                    ));
                },
                _ => {},
            }
            i = i + 1;
        }
    }

    /// Goes to a frame. The frames are counted from 1.
    pub fn run_goto(&mut self, frame: FrameNumber, library: &Vec<CharacterId>)
        ensures
            final(self)@ == old(self)@.goto(frame, library@),
            children_distinct(old(self)@.children, old(self)@.next_instance)
                ==> children_distinct(final(self)@.children, final(self)@.next_instance),
    {
        proof {
            if children_distinct(self@.children, self@.next_instance) {
                lemma_goto_keeps_identities(self@, frame, library@);
            }
        }
        let target: FrameNumber = if frame > self.total_frames {
            self.total_frames
        } else {
            frame
        };
        let mut commands: Vec<GotoPlaceObject> = Vec::new();
        let is_rewind: bool = target < self.current_frame;
        let from: FrameNumber = if is_rewind {
            self.current_frame = 0;
            self.remove_after(target);
            0
        } else {
            self.current_frame
        };
        let ghost start = Gathered { commands: Seq::empty(), children: self@.children };
        let ghost frames = self@.frames;
        assert(command_views(commands@) =~= Seq::empty());
        let mut at: FrameNumber = from;
        while at < target
            invariant
                from <= at <= target,
                frames == old(self)@.frames,
                self@.frames == old(self)@.frames,
                self@.total_frames == old(self)@.total_frames,
                self@.is_playing == old(self)@.is_playing,
                self@.next_instance == old(self)@.next_instance,
                self@.queued_actions == old(self)@.queued_actions,
                self@.frame_labels == old(self)@.frame_labels,
                gather_frames(start, frames, from, at, is_rewind) == (Gathered {
                    commands: command_views(commands@),
                    children: self@.children,
                }),
            decreases target - at,
        {
            at = at + 1;
            self.current_frame = at;
            self.gather(&mut commands, at, is_rewind);
        }
        self.run_goto_commands(&commands, target, true, library);
        self.current_frame = target;
        self.queue_actions(target);
        self.run_goto_commands(&commands, target, false, library);
        assert(self@ =~= old(self)@.goto(frame, library@));
    }
}


/// Whether a child with the given identity is among the children.
pub open spec fn has_instance(children: Seq<ChildView>, instance: InstanceId) -> bool {
    exists|k: int| 0 <= k < children.len() && (#[trigger] children[k]).instance == instance
}

/// The identity of the child at a depth.
pub open spec fn instance_at(children: Seq<ChildView>, depth: Depth) -> Option<InstanceId> {
    match child_index(children, depth) {
        Some(i) => Some(children[i].instance),
        None => None,
    }
}

/// Whether no two children share an identity or a depth, and every
/// identity lies below the identity of the next instance.
pub open spec fn children_distinct(children: Seq<ChildView>, next_instance: InstanceId) -> bool {
    &&& forall|i: int| 0 <= i < children.len() ==> (#[trigger] children[i]).instance < next_instance
    &&& forall|i: int, j: int|
        0 <= i < j < children.len() ==> (#[trigger] children[i]).instance != (
        #[trigger] children[j]).instance
    &&& forall|i: int, j: int|
        0 <= i < j < children.len() ==> (#[trigger] children[i]).depth != (
        #[trigger] children[j]).depth
}

/// What `child_index` returns: the first position with the depth, or none
/// where no child has the depth.
pub proof fn lemma_child_index(children: Seq<ChildView>, depth: Depth)
    ensures
        match child_index(children, depth) {
            Some(i) => 0 <= i < children.len() && children[i].depth == depth && forall|j: int|
                0 <= j < i ==> (#[trigger] children[j]).depth != depth,
            None => forall|j: int|
                0 <= j < children.len() ==> (#[trigger] children[j]).depth != depth,
        },
    decreases children.len(),
{
    if children.len() > 0 {
        let front = children.drop_last();
        lemma_child_index(front, depth);
        match child_index(front, depth) {
            Some(i) => {
                assert forall|j: int| 0 <= j < i implies (#[trigger] children[j]).depth
                    != depth by {
                    assert(children[j] == front[j]);
                }
                assert(children[i] == front[i]);
            },
            None => {
                assert forall|j: int| 0 <= j < children.len() - 1 implies (
                #[trigger] children[j]).depth != depth by {
                    assert(children[j] == front[j]);
                }
            },
        }
    }
}

proof fn lemma_child_index_is(children: Seq<ChildView>, depth: Depth, i: int)
    requires
        0 <= i < children.len(),
        children[i].depth == depth,
        forall|j: int| 0 <= j < i ==> (#[trigger] children[j]).depth != depth,
    ensures
        child_index(children, depth) == Some(i),
{
    lemma_child_index(children, depth);
    match child_index(children, depth) {
        Some(k) => {
            if k < i {
                assert(children[k].depth != depth);
            }
        },
        None => {
            assert(children[i].depth != depth);
        },
    }
}

/// On the way of a rewind no child is touched.
proof fn lemma_gather_tags_rewind(state: Gathered, tags: Seq<TagView>, frame: FrameNumber, upto: nat)
    ensures
        gather_tags(state, tags, frame, true, upto).children == state.children,
    decreases upto,
{
    if upto > 0 {
        lemma_gather_tags_rewind(state, tags, frame, (upto - 1) as nat);
    }
}

proof fn lemma_gather_frames_rewind(
    state: Gathered,
    frames: Seq<Seq<TagView>>,
    from: FrameNumber,
    to: FrameNumber,
)
    ensures
        gather_frames(state, frames, from, to, true).children == state.children,
    decreases to,
{
    if to > from {
        lemma_gather_frames_rewind(state, frames, from, (to - 1) as u16);
        lemma_gather_tags_rewind(
            gather_frames(state, frames, from, (to - 1) as u16, true),
            tags_of(frames, to),
            to,
            tags_of(frames, to).len(),
        );
    }
}

/// Carrying out a command destroys nothing: the child at every depth keeps
/// its identity, and a child that is new has the identity that was the next.
proof fn lemma_run_command(
    state: Placed,
    command: GotoView,
    library: Seq<CharacterId>,
    depth: Depth,
)
    ensures
        instance_at(state.children, depth) is Some ==> instance_at(
            run_command(state, command, library).children,
            depth,
        ) == instance_at(state.children, depth),
        run_command(state, command, library).next_instance >= state.next_instance,
        forall|x: InstanceId|
            has_instance(run_command(state, command, library).children, x) ==> has_instance(
                state.children,
                x,
            ) || x >= state.next_instance,
{
    let after = run_command(state, command, library);
    let d = command.place_object.depth;
    lemma_child_index(state.children, d);
    lemma_child_index(state.children, depth);
    match child_index(state.children, d) {
        Some(i) => {
            if instance_at(state.children, depth) is Some {
                let k = child_index(state.children, depth).unwrap();
                assert forall|j: int| 0 <= j < k implies (#[trigger] after.children[j]).depth
                    != depth by {
                    assert(state.children[j].depth != depth);
                }
                lemma_child_index_is(after.children, depth, k);
            }
            assert forall|x: InstanceId| has_instance(after.children, x) implies has_instance(
                state.children,
                x,
            ) || x >= state.next_instance by {
                let k = choose|k: int|
                    0 <= k < after.children.len() && (#[trigger] after.children[k]).instance == x;
                assert(state.children[k].instance == x);
            }
        },
        None => {
            if library.contains(command.id()) && state.next_instance < u64::MAX {
                if instance_at(state.children, depth) is Some {
                    let k = child_index(state.children, depth).unwrap();
                    assert forall|j: int| 0 <= j < k implies (#[trigger] after.children[j]).depth
                        != depth by {
                        assert(after.children[j] == state.children[j]);
                    }
                    assert(after.children[k] == state.children[k]);
                    lemma_child_index_is(after.children, depth, k);
                }
                assert forall|x: InstanceId| has_instance(after.children, x) implies has_instance(
                    state.children,
                    x,
                ) || x >= state.next_instance by {
                    let k = choose|k: int|
                        0 <= k < after.children.len() && (#[trigger] after.children[k]).instance
                            == x;
                    if k < state.children.len() {
                        assert(state.children[k].instance == x);
                    }
                }
            }
        },
    }
}

proof fn lemma_run_commands(
    state: Placed,
    commands: Seq<GotoView>,
    frame: FrameNumber,
    early: bool,
    library: Seq<CharacterId>,
    upto: nat,
    depth: Depth,
)
    ensures
        instance_at(state.children, depth) is Some ==> instance_at(
            run_commands(state, commands, frame, early, library, upto).children,
            depth,
        ) == instance_at(state.children, depth),
        run_commands(state, commands, frame, early, library, upto).next_instance
            >= state.next_instance,
        forall|x: InstanceId|
            has_instance(run_commands(state, commands, frame, early, library, upto).children, x)
                ==> has_instance(state.children, x) || x >= state.next_instance,
    decreases upto,
{
    if upto > 0 {
        let before = run_commands(state, commands, frame, early, library, (upto - 1) as nat);
        lemma_run_commands(state, commands, frame, early, library, (upto - 1) as nat, depth);
        if (commands[upto - 1].frame < frame) == early {
            lemma_run_command(before, commands[upto - 1], library, depth);
        }
    }
}

/// The frame that a goto leads to: the frame that was asked for, and the
/// last frame where that lies beyond it.
pub open spec fn goto_target(clip: ClipView, frame: FrameNumber) -> FrameNumber {
    if frame > clip.total_frames {
        clip.total_frames
    } else {
        frame
    }
}

/// A goto backward does not destroy and make again what was placed in the
/// frame it leads to or before: the child at every depth that was placed by
/// then is there after the goto, with the identity it had.
pub proof fn lemma_rewind_keeps_earlier(
    clip: ClipView,
    frame: FrameNumber,
    library: Seq<CharacterId>,
    depth: Depth,
)
    requires
        goto_target(clip, frame) < clip.current_frame,
        instance_at(clip.children.filter(placed_by(goto_target(clip, frame))), depth) is Some,
    ensures
        instance_at(clip.goto(frame, library).children, depth) == instance_at(
            clip.children.filter(placed_by(goto_target(clip, frame))),
            depth,
        ),
{
    let target = goto_target(clip, frame);
    let start = Gathered {
        commands: Seq::empty(),
        children: clip.children.filter(placed_by(target)),
    };
    lemma_gather_frames_rewind(start, clip.frames, 0, target);
    let gathered = gather_frames(start, clip.frames, 0, target, true);
    let first = Placed { children: gathered.children, next_instance: clip.next_instance };
    let early = run_commands(
        first,
        gathered.commands,
        target,
        true,
        library,
        gathered.commands.len(),
    );
    lemma_run_commands(
        first,
        gathered.commands,
        target,
        true,
        library,
        gathered.commands.len(),
        depth,
    );
    lemma_run_commands(
        early,
        gathered.commands,
        target,
        false,
        library,
        gathered.commands.len(),
        depth,
    );
}

/// A goto backward destroys what was placed after the frame it leads to: a
/// child that was placed later is not among the children after the goto.
/// What stands at its depth then is another instance.
pub proof fn lemma_rewind_destroys_later(
    clip: ClipView,
    frame: FrameNumber,
    library: Seq<CharacterId>,
    i: int,
)
    requires
        goto_target(clip, frame) < clip.current_frame,
        children_distinct(clip.children, clip.next_instance),
        0 <= i < clip.children.len(),
        clip.children[i].place_frame > goto_target(clip, frame),
    ensures
        !has_instance(clip.goto(frame, library).children, clip.children[i].instance),
{
    let target = goto_target(clip, frame);
    let kept = clip.children.filter(placed_by(target));
    let gone = clip.children[i].instance;
    let start = Gathered { commands: Seq::empty(), children: kept };
    lemma_gather_frames_rewind(start, clip.frames, 0, target);
    let gathered = gather_frames(start, clip.frames, 0, target, true);
    let first = Placed { children: gathered.children, next_instance: clip.next_instance };
    let early = run_commands(
        first,
        gathered.commands,
        target,
        true,
        library,
        gathered.commands.len(),
    );
    lemma_run_commands(first, gathered.commands, target, true, library, gathered.commands.len(), 0);
    lemma_run_commands(early, gathered.commands, target, false, library, gathered.commands.len(), 0);
    if has_instance(kept, gone) {
        let k = choose|k: int| 0 <= k < kept.len() && (#[trigger] kept[k]).instance == gone;
        clip.children.lemma_filter_pred(placed_by(target), k);
        clip.children.lemma_filter_contains_rev(placed_by(target), kept[k]);
        let j = choose|j: int| 0 <= j < clip.children.len() && clip.children[j] == kept[k];
        assert(clip.children[j].instance == clip.children[i].instance);
        assert(j != i);
        if j < i {
            assert(clip.children[j].instance != clip.children[i].instance);
        } else {
            assert(clip.children[i].instance != clip.children[j].instance);
        }
    }
    let after = clip.goto(frame, library).children;
    if has_instance(after, gone) {
        assert(has_instance(early.children, gone) || gone >= early.next_instance);
        assert(gone < clip.next_instance);
    }
}


proof fn lemma_remove_keeps_identities(children: Seq<ChildView>, next_instance: InstanceId, i: int)
    requires
        children_distinct(children, next_instance),
        0 <= i < children.len(),
    ensures
        children_distinct(children.remove(i), next_instance),
{
    let rest = children.remove(i);
    assert forall|k: int| 0 <= k < rest.len() implies (#[trigger] rest[k]).instance
        < next_instance by {
        if k < i {
            assert(rest[k] == children[k]);
        } else {
            assert(rest[k] == children[k + 1]);
        }
    }
    assert forall|a: int, b: int| 0 <= a < b < rest.len() implies (#[trigger] rest[a]).instance != (
    #[trigger] rest[b]).instance by {
        let x = if a < i {
            a
        } else {
            a + 1
        };
        let y = if b < i {
            b
        } else {
            b + 1
        };
        assert(rest[a] == children[x]);
        assert(rest[b] == children[y]);
        assert(children[x].instance != children[y].instance);
    }
    assert forall|a: int, b: int| 0 <= a < b < rest.len() implies (#[trigger] rest[a]).depth != (
    #[trigger] rest[b]).depth by {
        let x = if a < i {
            a
        } else {
            a + 1
        };
        let y = if b < i {
            b
        } else {
            b + 1
        };
        assert(rest[a] == children[x]);
        assert(rest[b] == children[y]);
        assert(children[x].depth != children[y].depth);
    }
}

proof fn lemma_filter_keeps_identities(
    children: Seq<ChildView>,
    next_instance: InstanceId,
    pred: spec_fn(ChildView) -> bool,
)
    requires
        children_distinct(children, next_instance),
    ensures
        children_distinct(children.filter(pred), next_instance),
    decreases children.len(),
{
    reveal(Seq::filter);
    if children.len() > 0 {
        let front = children.drop_last();
        let last = children.last();
        assert forall|a: int| 0 <= a < front.len() implies (#[trigger] front[a]).instance
            < next_instance by {
            assert(front[a] == children[a]);
        }
        assert forall|a: int, b: int| 0 <= a < b < front.len() implies (
        #[trigger] front[a]).instance != (#[trigger] front[b]).instance by {
            assert(front[a] == children[a]);
            assert(front[b] == children[b]);
            assert(children[a].instance != children[b].instance);
        }
        assert forall|a: int, b: int| 0 <= a < b < front.len() implies (
        #[trigger] front[a]).depth != (#[trigger] front[b]).depth by {
            assert(front[a] == children[a]);
            assert(front[b] == children[b]);
            assert(children[a].depth != children[b].depth);
        }
        lemma_filter_keeps_identities(front, next_instance, pred);
        let kept = front.filter(pred);
        assert(children =~= front.push(last));
        front.lemma_filter_push(last, pred);
        if pred(last) {
            let all = kept.push(last);
            assert(children.filter(pred) == all);
            assert forall|a: int, b: int| 0 <= a < b < all.len() implies (
            #[trigger] all[a]).instance != (#[trigger] all[b]).instance by {
                if b < kept.len() {
                    assert(all[a] == kept[a]);
                    assert(all[b] == kept[b]);
                    assert(kept[a].instance != kept[b].instance);
                } else {
                    assert(all[a] == kept[a]);
                    assert(kept.contains(kept[a]));
                    front.lemma_filter_contains_rev(pred, kept[a]);
                    let j = choose|j: int| 0 <= j < front.len() && front[j] == kept[a];
                    assert(children[j] == kept[a]);
                    assert(children[j].instance != children[children.len() - 1].instance);
                }
            }
            assert forall|a: int, b: int| 0 <= a < b < all.len() implies (
            #[trigger] all[a]).depth != (#[trigger] all[b]).depth by {
                if b < kept.len() {
                    assert(all[a] == kept[a]);
                    assert(all[b] == kept[b]);
                    assert(kept[a].depth != kept[b].depth);
                } else {
                    assert(all[a] == kept[a]);
                    assert(kept.contains(kept[a]));
                    front.lemma_filter_contains_rev(pred, kept[a]);
                    let j = choose|j: int| 0 <= j < front.len() && front[j] == kept[a];
                    assert(children[j] == kept[a]);
                    assert(children[j].depth != children[children.len() - 1].depth);
                }
            }
            assert forall|a: int| 0 <= a < all.len() implies (#[trigger] all[a]).instance
                < next_instance by {
                if a < kept.len() {
                    assert(all[a] == kept[a]);
                } else {
                    assert(all[a] == children[children.len() - 1]);
                }
            }
        }
    }
}

proof fn lemma_child_keeps_identities(state: Placed, i: int, child: ChildView)
    requires
        children_distinct(state.children, state.next_instance),
        0 <= i < state.children.len(),
        child.instance == state.children[i].instance,
        child.depth == state.children[i].depth,
    ensures
        children_distinct(state.children.update(i, child), state.next_instance),
{
    let after = state.children.update(i, child);
    assert forall|a: int, b: int| 0 <= a < b < after.len() implies (#[trigger] after[a]).depth != (
    #[trigger] after[b]).depth by {
        assert(after[a].depth == state.children[a].depth);
        assert(after[b].depth == state.children[b].depth);
        assert(state.children[a].depth != state.children[b].depth);
    }
    assert forall|a: int, b: int| 0 <= a < b < after.len() implies (#[trigger] after[a]).instance != (
    #[trigger] after[b]).instance by {
        assert(after[a].instance == state.children[a].instance);
        assert(after[b].instance == state.children[b].instance);
        assert(state.children[a].instance != state.children[b].instance);
    }
    assert forall|a: int| 0 <= a < after.len() implies (#[trigger] after[a]).instance
        < state.next_instance by {
        assert(after[a].instance == state.children[a].instance);
    }
}

proof fn lemma_new_child_keeps_identities(
    children: Seq<ChildView>,
    next_instance: InstanceId,
    child: ChildView,
)
    requires
        children_distinct(children, next_instance),
        child.instance == next_instance,
        next_instance < u64::MAX,
        forall|j: int| 0 <= j < children.len() ==> (#[trigger] children[j]).depth != child.depth,
    ensures
        children_distinct(children.push(child), (next_instance + 1) as u64),
{
    let after = children.push(child);
    assert forall|a: int, b: int| 0 <= a < b < after.len() implies (#[trigger] after[a]).depth != (
    #[trigger] after[b]).depth by {
        assert(after[a] == children[a]);
        if b < children.len() {
            assert(after[b] == children[b]);
            assert(children[a].depth != children[b].depth);
        }
    }
    assert forall|a: int, b: int| 0 <= a < b < after.len() implies (#[trigger] after[a]).instance != (
    #[trigger] after[b]).instance by {
        assert(after[a] == children[a]);
        if b < children.len() {
            assert(after[b] == children[b]);
            assert(children[a].instance != children[b].instance);
        }
    }
    assert forall|a: int| 0 <= a < after.len() implies (#[trigger] after[a]).instance < (
    next_instance + 1) as u64 by {
        if a < children.len() {
            assert(after[a] == children[a]);
        }
    }
}

proof fn lemma_commands_keep_identities(
    state: Placed,
    commands: Seq<GotoView>,
    frame: FrameNumber,
    early: bool,
    library: Seq<CharacterId>,
    upto: nat,
)
    requires
        children_distinct(state.children, state.next_instance),
    ensures
        children_distinct(
            run_commands(state, commands, frame, early, library, upto).children,
            run_commands(state, commands, frame, early, library, upto).next_instance,
        ),
    decreases upto,
{
    if upto > 0 {
        lemma_commands_keep_identities(state, commands, frame, early, library, (upto - 1) as nat);
        let before = run_commands(state, commands, frame, early, library, (upto - 1) as nat);
        let command = commands[upto - 1];
        if (command.frame < frame) == early {
            lemma_child_index(before.children, command.place_object.depth);
            match child_index(before.children, command.place_object.depth) {
                Some(i) => {
                    lemma_child_keeps_identities(
                        before,
                        i,
                        ChildView {
                            display: before.children[i].display.overlay(command.place_object),
                            ..before.children[i]
                        },
                    );
                },
                None => {
                    if library.contains(command.id()) && before.next_instance < u64::MAX {
                        lemma_new_child_keeps_identities(
                            before.children,
                            before.next_instance,
                            run_command(before, command, library).children.last(),
                        );
                    }
                },
            }
        }
    }
}

proof fn lemma_gathering_keeps_identities(
    state: Gathered,
    tags: Seq<TagView>,
    frame: FrameNumber,
    is_rewind: bool,
    upto: nat,
    next_instance: InstanceId,
)
    requires
        children_distinct(state.children, next_instance),
    ensures
        children_distinct(gather_tags(state, tags, frame, is_rewind, upto).children, next_instance),
    decreases upto,
{
    if upto > 0 {
        lemma_gathering_keeps_identities(
            state,
            tags,
            frame,
            is_rewind,
            (upto - 1) as nat,
            next_instance,
        );
        let before = gather_tags(state, tags, frame, is_rewind, (upto - 1) as nat);
        match tags[upto - 1] {
            TagView::RemoveObject { depth } => {
                lemma_child_index(before.children, depth);
                match child_index(before.children, depth) {
                    Some(i) => {
                        lemma_remove_keeps_identities(before.children, next_instance, i);
                    },
                    None => {},
                }
            },
            _ => {},
        }
    }
}

proof fn lemma_frames_keep_identities(
    state: Gathered,
    frames: Seq<Seq<TagView>>,
    from: FrameNumber,
    to: FrameNumber,
    is_rewind: bool,
    next_instance: InstanceId,
)
    requires
        children_distinct(state.children, next_instance),
    ensures
        children_distinct(gather_frames(state, frames, from, to, is_rewind).children, next_instance),
    decreases to,
{
    if to > from {
        lemma_frames_keep_identities(state, frames, from, (to - 1) as u16, is_rewind, next_instance);
        lemma_gathering_keeps_identities(
            gather_frames(state, frames, from, (to - 1) as u16, is_rewind),
            tags_of(frames, to),
            to,
            is_rewind,
            tags_of(frames, to).len(),
            next_instance,
        );
    }
}

/// A goto keeps the identities and the depths of the children distinct: no
/// instance that it makes takes the identity of another, and no two children
/// stand at one depth.
pub proof fn lemma_goto_keeps_identities(clip: ClipView, frame: FrameNumber, library: Seq<CharacterId>)
    requires
        children_distinct(clip.children, clip.next_instance),
    ensures
        children_distinct(
            clip.goto(frame, library).children,
            clip.goto(frame, library).next_instance,
        ),
{
    let target = goto_target(clip, frame);
    let is_rewind = target < clip.current_frame;
    lemma_filter_keeps_identities(clip.children, clip.next_instance, placed_by(target));
    let start = Gathered {
        commands: Seq::empty(),
        children: if is_rewind {
            clip.children.filter(placed_by(target))
        } else {
            clip.children
        },
    };
    let from: FrameNumber = if is_rewind {
        0
    } else {
        clip.current_frame
    };
    lemma_frames_keep_identities(start, clip.frames, from, target, is_rewind, clip.next_instance);
    let gathered = gather_frames(start, clip.frames, from, target, is_rewind);
    let first = Placed { children: gathered.children, next_instance: clip.next_instance };
    lemma_commands_keep_identities(
        first,
        gathered.commands,
        target,
        true,
        library,
        gathered.commands.len(),
    );
    let early = run_commands(first, gathered.commands, target, true, library, gathered.commands.len());
    lemma_commands_keep_identities(
        early,
        gathered.commands,
        target,
        false,
        library,
        gathered.commands.len(),
    );
}

/// The character that a placement places, if it places one.
pub open spec fn placed_character(action: PlaceObjectAction) -> Option<CharacterId> {
    match action {
        PlaceObjectAction::Place(id) => Some(id),
        PlaceObjectAction::Replace(id) => Some(id),
        PlaceObjectAction::Modify => None,
    }
}

/// What a placement does when the playhead reaches it: one that changes
/// what is there sets its display properties on the child at its depth, if
/// there is one. Any other makes a new instance of its character, which takes
/// the place of the child at its depth; where it puts its character in place
/// of another, the new instance starts with the display properties of that
/// one. A character that the library does not have is not instantiated, and
/// what is there stays.
pub open spec fn place_child(
    state: Placed,
    place_object: PlaceView,
    frame: FrameNumber,
    library: Seq<CharacterId>,
) -> Placed {
    let depth = place_object.depth;
    match placed_character(place_object.action) {
        None => match child_index(state.children, depth) {
            Some(i) => Placed {
                children: state.children.update(
                    i,
                    ChildView {
                        display: state.children[i].display.overlay(place_object),
                        ..state.children[i]
                    },
                ),
                ..state
            },
            None => state,
        },
        Some(id) => if library.contains(id) && state.next_instance < u64::MAX {
            let start = match child_index(state.children, depth) {
                Some(i) => if place_object.action is Replace {
                    PlaceView {
                        depth,
                        action: PlaceObjectAction::Place(id),
                        ..state.children[i].display
                    }
                } else {
                    blank(depth, id)
                },
                None => blank(depth, id),
            };
            let others = match child_index(state.children, depth) {
                Some(i) => state.children.remove(i),
                None => state.children,
            };
            Placed {
                children: others.push(
                    ChildView {
                        depth,
                        id,
                        instance: state.next_instance,
                        place_frame: frame,
                        display: start.overlay(place_object),
                    },
                ),
                next_instance: (state.next_instance + 1) as u64,
            }
        } else {
            state
        },
    }
}

impl ClipView {
    /// What a tag does when the playhead reaches it. Placements and
    /// removals are carried out only where `display` is set; script code is
    /// always queued.
    pub open spec fn play_tag(self, tag: TagView, display: bool, library: Seq<CharacterId>) -> ClipView {
        match tag {
            TagView::DoAction(code) => ClipView {
                queued_actions: self.queued_actions.push(code),
                ..self
            },
            TagView::PlaceObject(place_object) => if display {
                let placed = place_child(
                    Placed { children: self.children, next_instance: self.next_instance },
                    place_object,
                    self.current_frame,
                    library,
                );
                ClipView {
                    children: placed.children,
                    next_instance: placed.next_instance,
                    ..self
                }
            } else {
                self
            },
            TagView::RemoveObject { depth } => if display {
                match child_index(self.children, depth) {
                    Some(i) => ClipView { children: self.children.remove(i), ..self },
                    None => self,
                }
            } else {
                self
            },
            _ => self,
        }
    }

    /// What the first `upto` tags of a frame do when the playhead reaches
    /// the frame.
    pub open spec fn play_tags(
        self,
        tags: Seq<TagView>,
        display: bool,
        library: Seq<CharacterId>,
        upto: nat,
    ) -> ClipView
        decreases upto,
    {
        if upto == 0 {
            self
        } else {
            self.play_tags(tags, display, library, (upto - 1) as nat).play_tag(
                tags[upto - 1],
                display,
                library,
            )
        }
    }

    /// The clip after its playhead moved on by a frame. At the last frame a
    /// clip of several frames goes to its first frame, as by a goto; a clip
    /// of one frame stops.
    pub open spec fn run_frame_internal(self, display: bool, library: Seq<CharacterId>) -> ClipView {
        if self.current_frame < self.total_frames {
            let next: FrameNumber = (self.current_frame + 1) as u16;
            (ClipView { current_frame: next, ..self }).play_tags(
                tags_of(self.frames, next),
                display,
                library,
                tags_of(self.frames, next).len(),
            )
        } else if self.total_frames > 1 {
            self.goto(1, library)
        } else {
            ClipView { is_playing: false, ..self }
        }
    }
}

proof fn lemma_placement_keeps_identities(
    state: Placed,
    place_object: PlaceView,
    frame: FrameNumber,
    library: Seq<CharacterId>,
)
    requires
        children_distinct(state.children, state.next_instance),
    ensures
        children_distinct(
            place_child(state, place_object, frame, library).children,
            place_child(state, place_object, frame, library).next_instance,
        ),
{
    let depth = place_object.depth;
    lemma_child_index(state.children, depth);
    match placed_character(place_object.action) {
        None => match child_index(state.children, depth) {
            Some(i) => {
                lemma_child_keeps_identities(
                    state,
                    i,
                    ChildView {
                        display: state.children[i].display.overlay(place_object),
                        ..state.children[i]
                    },
                );
            },
            None => {},
        },
        Some(id) => {
            if library.contains(id) && state.next_instance < u64::MAX {
                let others = match child_index(state.children, depth) {
                    Some(i) => state.children.remove(i),
                    None => state.children,
                };
                match child_index(state.children, depth) {
                    Some(i) => {
                        lemma_remove_keeps_identities(state.children, state.next_instance, i);
                        assert forall|j: int| 0 <= j < others.len() implies (
                        #[trigger] others[j]).depth != depth by {
                            let x = if j < i {
                                j
                            } else {
                                j + 1
                            };
                            assert(others[j] == state.children[x]);
                            if x < i {
                                assert(state.children[x].depth != state.children[i].depth);
                            } else {
                                assert(state.children[i].depth != state.children[x].depth);
                            }
                        }
                    },
                    None => {},
                }
                lemma_new_child_keeps_identities(
                    others,
                    state.next_instance,
                    place_child(state, place_object, frame, library).children.last(),
                );
            }
        },
    }
}

proof fn lemma_tags_keep_identities(
    clip: ClipView,
    tags: Seq<TagView>,
    display: bool,
    library: Seq<CharacterId>,
    upto: nat,
)
    requires
        children_distinct(clip.children, clip.next_instance),
    ensures
        children_distinct(
            clip.play_tags(tags, display, library, upto).children,
            clip.play_tags(tags, display, library, upto).next_instance,
        ),
    decreases upto,
{
    if upto > 0 {
        lemma_tags_keep_identities(clip, tags, display, library, (upto - 1) as nat);
        let before = clip.play_tags(tags, display, library, (upto - 1) as nat);
        match tags[upto - 1] {
            TagView::PlaceObject(place_object) => {
                if display {
                    lemma_placement_keeps_identities(
                        Placed { children: before.children, next_instance: before.next_instance },
                        place_object,
                        before.current_frame,
                        library,
                    );
                }
            },
            TagView::RemoveObject { depth } => {
                if display {
                    lemma_child_index(before.children, depth);
                    match child_index(before.children, depth) {
                        Some(i) => {
                            lemma_remove_keeps_identities(before.children, before.next_instance, i);
                        },
                        None => {},
                    }
                }
            },
            _ => {},
        }
    }
}

/// A step of the playhead keeps the identities and the depths of the
/// children distinct.
pub proof fn lemma_frame_keeps_identities(clip: ClipView, display: bool, library: Seq<CharacterId>)
    requires
        children_distinct(clip.children, clip.next_instance),
    ensures
        children_distinct(
            clip.run_frame_internal(display, library).children,
            clip.run_frame_internal(display, library).next_instance,
        ),
{
    if clip.current_frame < clip.total_frames {
        let next: FrameNumber = (clip.current_frame + 1) as u16;
        lemma_tags_keep_identities(
            ClipView { current_frame: next, ..clip },
            tags_of(clip.frames, next),
            display,
            library,
            tags_of(clip.frames, next).len(),
        );
    } else if clip.total_frames > 1 {
        lemma_goto_keeps_identities(clip, 1, library);
    }
}

impl MovieClip {
    /// Carries out a placement that the playhead reached.
    fn place_object(&mut self, place_object: PlaceObject, library: &Vec<CharacterId>)
        ensures
            final(self).frames == old(self).frames,
            final(self)@ == (ClipView {
                children: place_child(
                    Placed {
                        children: old(self)@.children,
                        next_instance: old(self)@.next_instance,
                    },
                    place_object@,
                    old(self)@.current_frame,
                    library@,
                ).children,
                next_instance: place_child(
                    Placed {
                        children: old(self)@.children,
                        next_instance: old(self)@.next_instance,
                    },
                    place_object@,
                    old(self)@.current_frame,
                    library@,
                ).next_instance,
                ..old(self)@
            }),
    {
        let depth: Depth = place_object.depth;
        let ghost before = self@.children;
        let id: CharacterId = match place_object.action {
            PlaceObjectAction::Modify => {
                match find_child(&self.children, depth) {
                    Some(i) => {
                        self.children[i].display.overlay(place_object);
                        assert(self@.children =~= before.update(
                            i as int,
                            ChildView {
                                display: before[i as int].display.overlay(place_object@),
                                ..before[i as int]
                            },
                        ));
                    },
                    None => {},
                }
                return ;
            },
            PlaceObjectAction::Place(id) => id,
            PlaceObjectAction::Replace(id) => id,
        };
        if !holds_character(library, id) || self.next_instance == u64::MAX {
            return ;
        }
        let replaces: bool = match place_object.action {
            PlaceObjectAction::Replace(_) => true,
            _ => false,
        };
        let mut display = PlaceObject {
            depth,
            action: PlaceObjectAction::Place(id),
            matrix: None,
            color_transform: None,
            ratio: None,
            name: None,
            clip_depth: None,
            class_name: None,
            background_color: None,
        };
        match find_child(&self.children, depth) {
            Some(i) => {
                let previous = self.children.remove(i);
                assert(self@.children =~= before.remove(i as int));
                if replaces {
                    display = previous.display;
                    display.depth = depth;
                    display.action = PlaceObjectAction::Place(id);
                }
            },
            None => {},
        }
        display.overlay(place_object);
        let ghost others = self@.children;
        let child = Child {
            depth,
            id,
            instance: self.next_instance,
            place_frame: self.current_frame,
            display,
        };
        self.children.push(child);
        self.next_instance = self.next_instance + 1;
        assert(self@.children =~= others.push(child@));
    }

    /// Carries out the tags of a frame that the playhead reached.
    fn play_frame(&mut self, frame: FrameNumber, display: bool, library: &Vec<CharacterId>)
        ensures
            final(self)@ == old(self)@.play_tags(
                tags_of(old(self)@.frames, frame),
                display,
                library@,
                tags_of(old(self)@.frames, frame).len(),
            ),
    {
        if frame == 0 || frame as usize > self.frames.len() {
            return ;
        }
        let index: usize = (frame - 1) as usize;
        let ghost tags = tags_of(self@.frames, frame);
        let mut i: usize = 0;
        while i < self.frames[index].len()
            invariant
                index < self.frames@.len(),
                i <= self.frames@[index as int]@.len(),
                tags == tag_views(self.frames@[index as int]@),
                self.frames == old(self).frames,
                self@ == old(self)@.play_tags(tags, display, library@, i as nat),
            decreases self.frames@[index as int]@.len() - i,
        {
            assert(tags[i as int] == self.frames@[index as int]@[i as int]@);
            let ghost before = self@;
            match &self.frames[index][i] {
                TimelineTag::DoAction(code) => {
                    let code: u32 = *code;
                    self.queued_actions.push(code);
                    assert(self@ =~= before.play_tag(tags[i as int], display, library@));
                },
                TimelineTag::PlaceObject(place_object) => {
                    if display {
                        let placed = place_object.duplicate();
                        self.place_object(placed, library);
                    }
                    assert(self@ =~= before.play_tag(tags[i as int], display, library@));
                },
                TimelineTag::RemoveObject { depth } => {
                    let depth: Depth = *depth;
                    if display {
                        match find_child(&self.children, depth) {
                            Some(k) => {
                                self.children.remove(k);
                                assert(self@.children =~= before.children.remove(k as int));
                            },
                            None => {},
                        }
                    }
                    assert(self@ =~= before.play_tag(tags[i as int], display, library@));
                },
                _ => {},
            }
            i = i + 1;
        }
    }

    /// Moves the playhead on by a frame.
    pub fn run_frame_internal(&mut self, run_display_actions: bool, library: &Vec<CharacterId>)
        ensures
            final(self)@ == old(self)@.run_frame_internal(run_display_actions, library@),
            children_distinct(old(self)@.children, old(self)@.next_instance)
                ==> children_distinct(final(self)@.children, final(self)@.next_instance),
    {
        proof {
            if children_distinct(self@.children, self@.next_instance) {
                lemma_frame_keeps_identities(self@, run_display_actions, library@);
            }
        }
        if self.current_frame < self.total_frames {
            self.current_frame = self.current_frame + 1;
            let frame: FrameNumber = self.current_frame;
            self.play_frame(frame, run_display_actions, library);
        } else if self.total_frames > 1 {
            self.run_goto(1, library);
        } else {
            self.stop();
        }
    }

    /// Runs a frame: a clip that plays moves its playhead on.
    pub fn run_frame(&mut self, library: &Vec<CharacterId>)
        ensures
            final(self)@ == (if old(self)@.is_playing {
                old(self)@.run_frame_internal(true, library@)
            } else {
                old(self)@
            }),
            children_distinct(old(self)@.children, old(self)@.next_instance)
                ==> children_distinct(final(self)@.children, final(self)@.next_instance),
    {
        if self.is_playing {
            self.run_frame_internal(true, library);
        }
    }

    /// Gathers the labels of the frames, as far as frames can be counted.
    pub fn preload(&mut self)
        ensures
            final(self)@ == (ClipView {
                frame_labels: labels_of_frames(
                    old(self)@.frames,
                    if old(self)@.frames.len() <= 0xffff {
                        old(self)@.frames.len()
                    } else {
                        0xffff
                    },
                ),
                ..old(self)@
            }),
    {
        let mut labels: Vec<FrameLabel> = Vec::new();
        let mut f: usize = 0;
        assert(label_views(labels@) =~= labels_of_frames(self@.frames, 0));
        while f < self.frames.len() && f < 0xffff
            invariant
                f <= self.frames@.len(),
                f <= 0xffff,
                label_views(labels@) == labels_of_frames(self@.frames, f as nat),
            decreases self.frames@.len() - f,
        {
            let frame: FrameNumber = (f + 1) as u16;
            let ghost tags = self@.frames[f as int];
            let ghost base = label_views(labels@);
            let mut i: usize = 0;
            assert(base + labels_of_tags(tags, frame, 0) =~= base);
            while i < self.frames[f].len()
                invariant
                    f < self.frames@.len(),
                    i <= self.frames@[f as int]@.len(),
                    tags == tag_views(self.frames@[f as int]@),
                    label_views(labels@) == base + labels_of_tags(tags, frame, i as nat),
                decreases self.frames@[f as int]@.len() - i,
            {
                assert(tags[i as int] == self.frames@[f as int]@[i as int]@);
                match &self.frames[f][i] {
                    TimelineTag::FrameLabel(label) => {
                        let ghost earlier = label_views(labels@);
                        labels.push(FrameLabel { label: label.clone(), frame });
                        assert(label_views(labels@) =~= earlier.push(
                            LabelView { label: label@, frame },
                        ));
                        assert(label_views(labels@) =~= base + labels_of_tags(
                            tags,
                            frame,
                            (i + 1) as nat,
                        ));
                    },
                    _ => {},
                }
                i = i + 1;
            }
            f = f + 1;
        }
        self.frame_labels = labels;
    }

    /// The frame of a label: that of the last frame that has the label.
    pub fn frame_label_to_number(&self, frame_label: &str) -> (r: Option<FrameNumber>)
        ensures
            r == label_frame(self@.frame_labels, frame_label@),
    {
        let ghost views = label_views(self.frame_labels@);
        let mut i: usize = self.frame_labels.len();
        assert(views.take(i as int) =~= views);
        while i > 0
            invariant
                i <= self.frame_labels@.len(),
                views == label_views(self.frame_labels@),
                label_frame(views, frame_label@) == label_frame(views.take(i as int), frame_label@),
            decreases i,
        {
            proof {
                assert(views.take(i as int).drop_last() =~= views.take(i as int - 1));
                assert(views.take(i as int).last() == self.frame_labels@[i as int - 1]@);
            }
            i = i - 1;
            if crate::text::str_eq(self.frame_labels[i].label.as_str(), frame_label) {
                return Some(self.frame_labels[i].frame);
            }
        }
        None
    }

    /// The position of the child of a name: of several children of the
    /// name the one at the lowest depth.
    pub fn get_child_by_name(&self, name: &str) -> (r: Option<usize>)
        ensures
            match r {
                Some(i) => named_child(self@.children, name@) == Some(i as int) && i
                    < self@.children.len(),
                None => named_child(self@.children, name@) is None,
            },
    {
        let ghost views = child_views(self.children@);
        let mut best: Option<usize> = None;
        let mut i: usize = 0;
        assert(views.take(0) =~= Seq::empty());
        while i < self.children.len()
            invariant
                i <= self.children@.len(),
                views == child_views(self.children@),
                match best {
                    Some(b) => b < i && named_child(views.take(i as int), name@) == Some(b as int),
                    None => named_child(views.take(i as int), name@) is None,
                },
            decreases self.children@.len() - i,
        {
            proof {
                assert(views.take(i as int + 1).drop_last() =~= views.take(i as int));
                assert(views.take(i as int + 1).last() == self.children@[i as int]@);
                match best {
                    Some(b) => {
                        assert(views.take(i as int + 1)[b as int] == self.children@[b as int]@);
                    },
                    None => {},
                }
            }
            let found: bool = match &self.children[i].display.name {
                Some(n) => crate::text::str_eq(n.as_str(), name),
                None => false,
            };
            if found {
                match best {
                    Some(b) => {
                        if self.children[i].depth < self.children[b].depth {
                            best = Some(i);
                        }
                    },
                    None => {
                        best = Some(i);
                    },
                }
            }
            i = i + 1;
        }
        assert(views.take(i as int) =~= views);
        best
    }
}

} // verus!
