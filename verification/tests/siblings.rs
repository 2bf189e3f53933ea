use enum_tree::{EnumTree, EnumTreeInner, EnumTreeLeaf, EnumTreeRoot, ToEnumTreeRoot, TryFromEnumTreeRoot};

#[derive(Clone, Debug, PartialEq)]
pub enum RootAction {
    MenuFlow(MenuFlow),
    AudioActions(AudioActions),
}

#[derive(Clone, Debug, PartialEq)]
pub enum MenuFlow {
    General(General),
    Settings(Settings),
}

#[derive(Clone, Debug, PartialEq)]
pub enum General {
    ClickBack,
    Resize { width: u32, height: u32 },
}

#[derive(Clone, Debug, PartialEq)]
pub enum Settings {
    Open,
}

#[derive(Clone, Debug, PartialEq)]
pub enum AudioActions {
    ToggleMuteAll,
}

impl EnumTree<RootAction> for RootAction {
    type P = ();
}
impl EnumTreeRoot<RootAction> for RootAction {}
impl ToEnumTreeRoot<RootAction> for RootAction {
    fn to_root(self) -> RootAction {
        self
    }
}
impl TryFromEnumTreeRoot<RootAction> for RootAction {
    fn from_root(root: RootAction) -> Option<Self> {
        Some(root)
    }
}

impl EnumTree<RootAction> for MenuFlow {
    type P = RootAction;
}
impl EnumTreeInner<RootAction> for MenuFlow {}
impl From<MenuFlow> for RootAction {
    fn from(value: MenuFlow) -> Self {
        RootAction::MenuFlow(value)
    }
}
impl TryFrom<RootAction> for MenuFlow {
    type Error = ();
    fn try_from(value: RootAction) -> Result<Self, Self::Error> {
        if let RootAction::MenuFlow(v) = value { Ok(v) } else { Err(()) }
    }
}

impl EnumTree<RootAction> for AudioActions {
    type P = RootAction;
}
impl EnumTreeLeaf<RootAction> for AudioActions {}
impl From<AudioActions> for RootAction {
    fn from(value: AudioActions) -> Self {
        RootAction::AudioActions(value)
    }
}
impl TryFrom<RootAction> for AudioActions {
    type Error = ();
    fn try_from(value: RootAction) -> Result<Self, Self::Error> {
        if let RootAction::AudioActions(v) = value { Ok(v) } else { Err(()) }
    }
}

impl EnumTree<RootAction> for General {
    type P = MenuFlow;
}
impl EnumTreeLeaf<RootAction> for General {}
impl From<General> for MenuFlow {
    fn from(value: General) -> Self {
        MenuFlow::General(value)
    }
}
impl TryFrom<MenuFlow> for General {
    type Error = ();
    fn try_from(value: MenuFlow) -> Result<Self, Self::Error> {
        if let MenuFlow::General(v) = value { Ok(v) } else { Err(()) }
    }
}

impl EnumTree<RootAction> for Settings {
    type P = MenuFlow;
}
impl EnumTreeLeaf<RootAction> for Settings {}
impl From<Settings> for MenuFlow {
    fn from(value: Settings) -> Self {
        MenuFlow::Settings(value)
    }
}
impl TryFrom<MenuFlow> for Settings {
    type Error = ();
    fn try_from(value: MenuFlow) -> Result<Self, Self::Error> {
        if let MenuFlow::Settings(v) = value { Ok(v) } else { Err(()) }
    }
}

#[test]
fn leaf_goes_up_through_every_parent() {
    let root: RootAction = General::Resize { width: 3, height: 4 }.to_root();
    assert_eq!(
        root,
        RootAction::MenuFlow(MenuFlow::General(General::Resize { width: 3, height: 4 }))
    );
    let direct: RootAction = AudioActions::ToggleMuteAll.to_root();
    assert_eq!(direct, RootAction::AudioActions(AudioActions::ToggleMuteAll));
}

#[test]
fn root_converted_to_itself_is_itself() {
    let root = RootAction::AudioActions(AudioActions::ToggleMuteAll);
    let again: RootAction = root.clone().to_root();
    assert_eq!(again, root);
    assert_eq!(<RootAction as TryFromEnumTreeRoot<RootAction>>::from_root(root.clone()), Some(root));
}

#[test]
fn down_then_up_gives_the_value_back() {
    let general = General::ClickBack;
    let root: RootAction = general.clone().to_root();
    assert_eq!(<General as TryFromEnumTreeRoot<RootAction>>::from_root(root), Some(general));

    let flow = MenuFlow::Settings(Settings::Open);
    let root: RootAction = flow.clone().to_root();
    assert_eq!(<MenuFlow as TryFromEnumTreeRoot<RootAction>>::from_root(root), Some(flow));
}

#[test]
fn sibling_is_not_recovered() {
    let root: RootAction = Settings::Open.to_root();
    assert_eq!(<General as TryFromEnumTreeRoot<RootAction>>::from_root(root.clone()), None);
    assert_eq!(<AudioActions as TryFromEnumTreeRoot<RootAction>>::from_root(root.clone()), None);
    assert_eq!(<Settings as TryFromEnumTreeRoot<RootAction>>::from_root(root), Some(Settings::Open));

    let other: RootAction = AudioActions::ToggleMuteAll.to_root();
    assert_eq!(<General as TryFromEnumTreeRoot<RootAction>>::from_root(other.clone()), None);
    assert_eq!(<MenuFlow as TryFromEnumTreeRoot<RootAction>>::from_root(other), None);
}
