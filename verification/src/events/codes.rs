use vstd::prelude::*;

verus! {

/// Represents whether a key or mouse button is pressed or released.
#[derive(Debug, Hash, PartialEq, Eq, Clone, Copy, Structural)]
pub enum ButtonState {
    Pressed,
    Released,
}

impl ButtonState {
    pub fn is_pressed(&self) -> (r: bool)
        ensures
            r == (*self == ButtonState::Pressed),
    {
        match self {
            ButtonState::Pressed => true,
            ButtonState::Released => false,
        }
    }
}

/// Represents the mouse button code on a mouse.
#[derive(Debug, Hash, PartialEq, Eq, Clone, Copy, Structural)]
pub enum MouseButton {
    Left,
    Right,
    Middle,
    Back,
    Forward,
    Other,
}

impl MouseButton {
    /// A number that identifies the button.
    pub open spec fn spec_code(self) -> u32 {
        match self {
            MouseButton::Left => 0,
            MouseButton::Right => 1,
            MouseButton::Middle => 2,
            MouseButton::Back => 3,
            MouseButton::Forward => 4,
            MouseButton::Other => 5,
        }
    }

    /// A number that identifies the button; different buttons have different numbers.
    pub fn code(&self) -> (r: u32)
        ensures
            r == self.spec_code(),
    {
        match self {
            MouseButton::Left => 0,
            MouseButton::Right => 1,
            MouseButton::Middle => 2,
            MouseButton::Back => 3,
            MouseButton::Forward => 4,
            MouseButton::Other => 5,
        }
    }

    /// Different buttons have different codes.
    pub proof fn lemma_code_injective(a: MouseButton, b: MouseButton)
        ensures
            a.spec_code() == b.spec_code() ==> a == b,
    {
    }
}

/// Represents the modifier keys being pressed (left and right).
#[derive(Default, Debug, Hash, PartialEq, Eq, Clone, Copy, Structural)]
pub struct KeyModifiers {
    pub alt_key: bool,
    pub control_key: bool,
    pub shift_key: bool,
    pub super_key: bool,
}

impl KeyModifiers {
    /// The super/command key on macOS and the control key on other systems.
    ///
    /// `is_macos` says whether the program runs on macOS.
    pub fn command_key(&self, is_macos: bool) -> (r: bool)
        ensures
            r == if is_macos {
                self.super_key
            } else {
                self.control_key
            },
    {
        if is_macos {
            self.super_key
        } else {
            self.control_key
        }
    }
}

/// Represents the physical key on the keyboard not accounting for keyboard layouts.
#[derive(Debug, Hash, PartialEq, Eq, Clone, Copy, Structural)]
pub enum KeyCode {
    Backquote,
    Backslash,
    BracketLeft,
    BracketRight,
    Comma,
    Digit0,
    Digit1,
    Digit2,
    Digit3,
    Digit4,
    Digit5,
    Digit6,
    Digit7,
    Digit8,
    Digit9,
    Equal,
    IntlBackslash,
    IntlRo,
    IntlYen,
    KeyA,
    KeyB,
    KeyC,
    KeyD,
    KeyE,
    KeyF,
    KeyG,
    KeyH,
    KeyI,
    KeyJ,
    KeyK,
    KeyL,
    KeyM,
    KeyN,
    KeyO,
    KeyP,
    KeyQ,
    KeyR,
    KeyS,
    KeyT,
    KeyU,
    KeyV,
    KeyW,
    KeyX,
    KeyY,
    KeyZ,
    Minus,
    Period,
    Quote,
    Semicolon,
    Slash,
    AltLeft,
    AltRight,
    Backspace,
    CapsLock,
    ContextMenu,
    ControlLeft,
    ControlRight,
    Enter,
    SuperLeft,
    SuperRight,
    ShiftLeft,
    ShiftRight,
    Space,
    Tab,
    Convert,
    KanaMode,
    Lang1,
    Lang2,
    Lang3,
    Lang4,
    Lang5,
    NonConvert,
    Delete,
    End,
    Help,
    Home,
    Insert,
    PageDown,
    PageUp,
    ArrowDown,
    ArrowLeft,
    ArrowRight,
    ArrowUp,
    NumLock,
    Numpad0,
    Numpad1,
    Numpad2,
    Numpad3,
    Numpad4,
    Numpad5,
    Numpad6,
    Numpad7,
    Numpad8,
    Numpad9,
    NumpadAdd,
    NumpadBackspace,
    NumpadClear,
    NumpadClearEntry,
    NumpadComma,
    NumpadDecimal,
    NumpadDivide,
    NumpadEnter,
    NumpadEqual,
    NumpadHash,
    NumpadMemoryAdd,
    NumpadMemoryClear,
    NumpadMemoryRecall,
    NumpadMemoryStore,
    NumpadMemorySubtract,
    NumpadMultiply,
    NumpadParenLeft,
    NumpadParenRight,
    NumpadStar,
    NumpadSubtract,
    Escape,
    Fn,
    FnLock,
    PrintScreen,
    ScrollLock,
    Pause,
    BrowserBack,
    BrowserFavorites,
    BrowserForward,
    BrowserHome,
    BrowserRefresh,
    BrowserSearch,
    BrowserStop,
    Eject,
    LaunchApp1,
    LaunchApp2,
    LaunchMail,
    MediaPlayPause,
    MediaSelect,
    MediaStop,
    MediaTrackNext,
    MediaTrackPrevious,
    Power,
    Sleep,
    AudioVolumeDown,
    AudioVolumeMute,
    AudioVolumeUp,
    WakeUp,
    Abort,
    Resume,
    Suspend,
    Again,
    Copy,
    Cut,
    Find,
    Open,
    Paste,
    Props,
    Select,
    Undo,
    Hiragana,
    Katakana,
    F1,
    F2,
    F3,
    F4,
    F5,
    F6,
    F7,
    F8,
    F9,
    F10,
    F11,
    F12,
    F13,
    F14,
    F15,
    F16,
    F17,
    F18,
    F19,
    F20,
    F21,
    F22,
    F23,
    F24,
    F25,
    F26,
    F27,
    F28,
    F29,
    F30,
    F31,
    F32,
    F33,
    F34,
    F35,
    Unknown,
}

impl KeyCode {
    /// A number that identifies the key: its position in the list of keys.
    pub open spec fn spec_code(self) -> u32 {
        match self {
            KeyCode::Backquote => 0,
            KeyCode::Backslash => 1,
            KeyCode::BracketLeft => 2,
            KeyCode::BracketRight => 3,
            KeyCode::Comma => 4,
            KeyCode::Digit0 => 5,
            KeyCode::Digit1 => 6,
            KeyCode::Digit2 => 7,
            KeyCode::Digit3 => 8,
            KeyCode::Digit4 => 9,
            KeyCode::Digit5 => 10,
            KeyCode::Digit6 => 11,
            KeyCode::Digit7 => 12,
            KeyCode::Digit8 => 13,
            KeyCode::Digit9 => 14,
            KeyCode::Equal => 15,
            KeyCode::IntlBackslash => 16,
            KeyCode::IntlRo => 17,
            KeyCode::IntlYen => 18,
            KeyCode::KeyA => 19,
            KeyCode::KeyB => 20,
            KeyCode::KeyC => 21,
            KeyCode::KeyD => 22,
            KeyCode::KeyE => 23,
            KeyCode::KeyF => 24,
            KeyCode::KeyG => 25,
            KeyCode::KeyH => 26,
            KeyCode::KeyI => 27,
            KeyCode::KeyJ => 28,
            KeyCode::KeyK => 29,
            KeyCode::KeyL => 30,
            KeyCode::KeyM => 31,
            KeyCode::KeyN => 32,
            KeyCode::KeyO => 33,
            KeyCode::KeyP => 34,
            KeyCode::KeyQ => 35,
            KeyCode::KeyR => 36,
            KeyCode::KeyS => 37,
            KeyCode::KeyT => 38,
            KeyCode::KeyU => 39,
            KeyCode::KeyV => 40,
            KeyCode::KeyW => 41,
            KeyCode::KeyX => 42,
            KeyCode::KeyY => 43,
            KeyCode::KeyZ => 44,
            KeyCode::Minus => 45,
            KeyCode::Period => 46,
            KeyCode::Quote => 47,
            KeyCode::Semicolon => 48,
            KeyCode::Slash => 49,
            KeyCode::AltLeft => 50,
            KeyCode::AltRight => 51,
            KeyCode::Backspace => 52,
            KeyCode::CapsLock => 53,
            KeyCode::ContextMenu => 54,
            KeyCode::ControlLeft => 55,
            KeyCode::ControlRight => 56,
            KeyCode::Enter => 57,
            KeyCode::SuperLeft => 58,
            KeyCode::SuperRight => 59,
            KeyCode::ShiftLeft => 60,
            KeyCode::ShiftRight => 61,
            KeyCode::Space => 62,
            KeyCode::Tab => 63,
            KeyCode::Convert => 64,
            KeyCode::KanaMode => 65,
            KeyCode::Lang1 => 66,
            KeyCode::Lang2 => 67,
            KeyCode::Lang3 => 68,
            KeyCode::Lang4 => 69,
            KeyCode::Lang5 => 70,
            KeyCode::NonConvert => 71,
            KeyCode::Delete => 72,
            KeyCode::End => 73,
            KeyCode::Help => 74,
            KeyCode::Home => 75,
            KeyCode::Insert => 76,
            KeyCode::PageDown => 77,
            KeyCode::PageUp => 78,
            KeyCode::ArrowDown => 79,
            KeyCode::ArrowLeft => 80,
            KeyCode::ArrowRight => 81,
            KeyCode::ArrowUp => 82,
            KeyCode::NumLock => 83,
            KeyCode::Numpad0 => 84,
            KeyCode::Numpad1 => 85,
            KeyCode::Numpad2 => 86,
            KeyCode::Numpad3 => 87,
            KeyCode::Numpad4 => 88,
            KeyCode::Numpad5 => 89,
            KeyCode::Numpad6 => 90,
            KeyCode::Numpad7 => 91,
            KeyCode::Numpad8 => 92,
            KeyCode::Numpad9 => 93,
            KeyCode::NumpadAdd => 94,
            KeyCode::NumpadBackspace => 95,
            KeyCode::NumpadClear => 96,
            KeyCode::NumpadClearEntry => 97,
            KeyCode::NumpadComma => 98,
            KeyCode::NumpadDecimal => 99,
            KeyCode::NumpadDivide => 100,
            KeyCode::NumpadEnter => 101,
            KeyCode::NumpadEqual => 102,
            KeyCode::NumpadHash => 103,
            KeyCode::NumpadMemoryAdd => 104,
            KeyCode::NumpadMemoryClear => 105,
            KeyCode::NumpadMemoryRecall => 106,
            KeyCode::NumpadMemoryStore => 107,
            KeyCode::NumpadMemorySubtract => 108,
            KeyCode::NumpadMultiply => 109,
            KeyCode::NumpadParenLeft => 110,
            KeyCode::NumpadParenRight => 111,
            KeyCode::NumpadStar => 112,
            KeyCode::NumpadSubtract => 113,
            KeyCode::Escape => 114,
            KeyCode::Fn => 115,
            KeyCode::FnLock => 116,
            KeyCode::PrintScreen => 117,
            KeyCode::ScrollLock => 118,
            KeyCode::Pause => 119,
            KeyCode::BrowserBack => 120,
            KeyCode::BrowserFavorites => 121,
            KeyCode::BrowserForward => 122,
            KeyCode::BrowserHome => 123,
            KeyCode::BrowserRefresh => 124,
            KeyCode::BrowserSearch => 125,
            KeyCode::BrowserStop => 126,
            KeyCode::Eject => 127,
            KeyCode::LaunchApp1 => 128,
            KeyCode::LaunchApp2 => 129,
            KeyCode::LaunchMail => 130,
            KeyCode::MediaPlayPause => 131,
            KeyCode::MediaSelect => 132,
            KeyCode::MediaStop => 133,
            KeyCode::MediaTrackNext => 134,
            KeyCode::MediaTrackPrevious => 135,
            KeyCode::Power => 136,
            KeyCode::Sleep => 137,
            KeyCode::AudioVolumeDown => 138,
            KeyCode::AudioVolumeMute => 139,
            KeyCode::AudioVolumeUp => 140,
            KeyCode::WakeUp => 141,
            KeyCode::Abort => 142,
            KeyCode::Resume => 143,
            KeyCode::Suspend => 144,
            KeyCode::Again => 145,
            KeyCode::Copy => 146,
            KeyCode::Cut => 147,
            KeyCode::Find => 148,
            KeyCode::Open => 149,
            KeyCode::Paste => 150,
            KeyCode::Props => 151,
            KeyCode::Select => 152,
            KeyCode::Undo => 153,
            KeyCode::Hiragana => 154,
            KeyCode::Katakana => 155,
            KeyCode::F1 => 156,
            KeyCode::F2 => 157,
            KeyCode::F3 => 158,
            KeyCode::F4 => 159,
            KeyCode::F5 => 160,
            KeyCode::F6 => 161,
            KeyCode::F7 => 162,
            KeyCode::F8 => 163,
            KeyCode::F9 => 164,
            KeyCode::F10 => 165,
            KeyCode::F11 => 166,
            KeyCode::F12 => 167,
            KeyCode::F13 => 168,
            KeyCode::F14 => 169,
            KeyCode::F15 => 170,
            KeyCode::F16 => 171,
            KeyCode::F17 => 172,
            KeyCode::F18 => 173,
            KeyCode::F19 => 174,
            KeyCode::F20 => 175,
            KeyCode::F21 => 176,
            KeyCode::F22 => 177,
            KeyCode::F23 => 178,
            KeyCode::F24 => 179,
            KeyCode::F25 => 180,
            KeyCode::F26 => 181,
            KeyCode::F27 => 182,
            KeyCode::F28 => 183,
            KeyCode::F29 => 184,
            KeyCode::F30 => 185,
            KeyCode::F31 => 186,
            KeyCode::F32 => 187,
            KeyCode::F33 => 188,
            KeyCode::F34 => 189,
            KeyCode::F35 => 190,
            KeyCode::Unknown => 191,
        }
    }

    /// The key whose code is `code`, if any.
    pub open spec fn from_spec_code(code: u32) -> KeyCode {
        match code {
            0 => KeyCode::Backquote,
            1 => KeyCode::Backslash,
            2 => KeyCode::BracketLeft,
            3 => KeyCode::BracketRight,
            4 => KeyCode::Comma,
            5 => KeyCode::Digit0,
            6 => KeyCode::Digit1,
            7 => KeyCode::Digit2,
            8 => KeyCode::Digit3,
            9 => KeyCode::Digit4,
            10 => KeyCode::Digit5,
            11 => KeyCode::Digit6,
            12 => KeyCode::Digit7,
            13 => KeyCode::Digit8,
            14 => KeyCode::Digit9,
            15 => KeyCode::Equal,
            16 => KeyCode::IntlBackslash,
            17 => KeyCode::IntlRo,
            18 => KeyCode::IntlYen,
            19 => KeyCode::KeyA,
            20 => KeyCode::KeyB,
            21 => KeyCode::KeyC,
            22 => KeyCode::KeyD,
            23 => KeyCode::KeyE,
            24 => KeyCode::KeyF,
            25 => KeyCode::KeyG,
            26 => KeyCode::KeyH,
            27 => KeyCode::KeyI,
            28 => KeyCode::KeyJ,
            29 => KeyCode::KeyK,
            30 => KeyCode::KeyL,
            31 => KeyCode::KeyM,
            32 => KeyCode::KeyN,
            33 => KeyCode::KeyO,
            34 => KeyCode::KeyP,
            35 => KeyCode::KeyQ,
            36 => KeyCode::KeyR,
            37 => KeyCode::KeyS,
            38 => KeyCode::KeyT,
            39 => KeyCode::KeyU,
            40 => KeyCode::KeyV,
            41 => KeyCode::KeyW,
            42 => KeyCode::KeyX,
            43 => KeyCode::KeyY,
            44 => KeyCode::KeyZ,
            45 => KeyCode::Minus,
            46 => KeyCode::Period,
            47 => KeyCode::Quote,
            48 => KeyCode::Semicolon,
            49 => KeyCode::Slash,
            50 => KeyCode::AltLeft,
            51 => KeyCode::AltRight,
            52 => KeyCode::Backspace,
            53 => KeyCode::CapsLock,
            54 => KeyCode::ContextMenu,
            55 => KeyCode::ControlLeft,
            56 => KeyCode::ControlRight,
            57 => KeyCode::Enter,
            58 => KeyCode::SuperLeft,
            59 => KeyCode::SuperRight,
            60 => KeyCode::ShiftLeft,
            61 => KeyCode::ShiftRight,
            62 => KeyCode::Space,
            63 => KeyCode::Tab,
            64 => KeyCode::Convert,
            65 => KeyCode::KanaMode,
            66 => KeyCode::Lang1,
            67 => KeyCode::Lang2,
            68 => KeyCode::Lang3,
            69 => KeyCode::Lang4,
            70 => KeyCode::Lang5,
            71 => KeyCode::NonConvert,
            72 => KeyCode::Delete,
            73 => KeyCode::End,
            74 => KeyCode::Help,
            75 => KeyCode::Home,
            76 => KeyCode::Insert,
            77 => KeyCode::PageDown,
            78 => KeyCode::PageUp,
            79 => KeyCode::ArrowDown,
            80 => KeyCode::ArrowLeft,
            81 => KeyCode::ArrowRight,
            82 => KeyCode::ArrowUp,
            83 => KeyCode::NumLock,
            84 => KeyCode::Numpad0,
            85 => KeyCode::Numpad1,
            86 => KeyCode::Numpad2,
            87 => KeyCode::Numpad3,
            88 => KeyCode::Numpad4,
            89 => KeyCode::Numpad5,
            90 => KeyCode::Numpad6,
            91 => KeyCode::Numpad7,
            92 => KeyCode::Numpad8,
            93 => KeyCode::Numpad9,
            94 => KeyCode::NumpadAdd,
            95 => KeyCode::NumpadBackspace,
            96 => KeyCode::NumpadClear,
            97 => KeyCode::NumpadClearEntry,
            98 => KeyCode::NumpadComma,
            99 => KeyCode::NumpadDecimal,
            100 => KeyCode::NumpadDivide,
            101 => KeyCode::NumpadEnter,
            102 => KeyCode::NumpadEqual,
            103 => KeyCode::NumpadHash,
            104 => KeyCode::NumpadMemoryAdd,
            105 => KeyCode::NumpadMemoryClear,
            106 => KeyCode::NumpadMemoryRecall,
            107 => KeyCode::NumpadMemoryStore,
            108 => KeyCode::NumpadMemorySubtract,
            109 => KeyCode::NumpadMultiply,
            110 => KeyCode::NumpadParenLeft,
            111 => KeyCode::NumpadParenRight,
            112 => KeyCode::NumpadStar,
            113 => KeyCode::NumpadSubtract,
            114 => KeyCode::Escape,
            115 => KeyCode::Fn,
            116 => KeyCode::FnLock,
            117 => KeyCode::PrintScreen,
            118 => KeyCode::ScrollLock,
            119 => KeyCode::Pause,
            120 => KeyCode::BrowserBack,
            121 => KeyCode::BrowserFavorites,
            122 => KeyCode::BrowserForward,
            123 => KeyCode::BrowserHome,
            124 => KeyCode::BrowserRefresh,
            125 => KeyCode::BrowserSearch,
            126 => KeyCode::BrowserStop,
            127 => KeyCode::Eject,
            128 => KeyCode::LaunchApp1,
            129 => KeyCode::LaunchApp2,
            130 => KeyCode::LaunchMail,
            131 => KeyCode::MediaPlayPause,
            132 => KeyCode::MediaSelect,
            133 => KeyCode::MediaStop,
            134 => KeyCode::MediaTrackNext,
            135 => KeyCode::MediaTrackPrevious,
            136 => KeyCode::Power,
            137 => KeyCode::Sleep,
            138 => KeyCode::AudioVolumeDown,
            139 => KeyCode::AudioVolumeMute,
            140 => KeyCode::AudioVolumeUp,
            141 => KeyCode::WakeUp,
            142 => KeyCode::Abort,
            143 => KeyCode::Resume,
            144 => KeyCode::Suspend,
            145 => KeyCode::Again,
            146 => KeyCode::Copy,
            147 => KeyCode::Cut,
            148 => KeyCode::Find,
            149 => KeyCode::Open,
            150 => KeyCode::Paste,
            151 => KeyCode::Props,
            152 => KeyCode::Select,
            153 => KeyCode::Undo,
            154 => KeyCode::Hiragana,
            155 => KeyCode::Katakana,
            156 => KeyCode::F1,
            157 => KeyCode::F2,
            158 => KeyCode::F3,
            159 => KeyCode::F4,
            160 => KeyCode::F5,
            161 => KeyCode::F6,
            162 => KeyCode::F7,
            163 => KeyCode::F8,
            164 => KeyCode::F9,
            165 => KeyCode::F10,
            166 => KeyCode::F11,
            167 => KeyCode::F12,
            168 => KeyCode::F13,
            169 => KeyCode::F14,
            170 => KeyCode::F15,
            171 => KeyCode::F16,
            172 => KeyCode::F17,
            173 => KeyCode::F18,
            174 => KeyCode::F19,
            175 => KeyCode::F20,
            176 => KeyCode::F21,
            177 => KeyCode::F22,
            178 => KeyCode::F23,
            179 => KeyCode::F24,
            180 => KeyCode::F25,
            181 => KeyCode::F26,
            182 => KeyCode::F27,
            183 => KeyCode::F28,
            184 => KeyCode::F29,
            185 => KeyCode::F30,
            186 => KeyCode::F31,
            187 => KeyCode::F32,
            188 => KeyCode::F33,
            189 => KeyCode::F34,
            190 => KeyCode::F35,
            _ => KeyCode::Unknown,
        }
    }

    /// A number that identifies the key; different keys have different numbers.
    pub fn code(&self) -> (r: u32)
        ensures
            r == self.spec_code(),
    {
        match self {
            KeyCode::Backquote => 0,
            KeyCode::Backslash => 1,
            KeyCode::BracketLeft => 2,
            KeyCode::BracketRight => 3,
            KeyCode::Comma => 4,
            KeyCode::Digit0 => 5,
            KeyCode::Digit1 => 6,
            KeyCode::Digit2 => 7,
            KeyCode::Digit3 => 8,
            KeyCode::Digit4 => 9,
            KeyCode::Digit5 => 10,
            KeyCode::Digit6 => 11,
            KeyCode::Digit7 => 12,
            KeyCode::Digit8 => 13,
            KeyCode::Digit9 => 14,
            KeyCode::Equal => 15,
            KeyCode::IntlBackslash => 16,
            KeyCode::IntlRo => 17,
            KeyCode::IntlYen => 18,
            KeyCode::KeyA => 19,
            KeyCode::KeyB => 20,
            KeyCode::KeyC => 21,
            KeyCode::KeyD => 22,
            KeyCode::KeyE => 23,
            KeyCode::KeyF => 24,
            KeyCode::KeyG => 25,
            KeyCode::KeyH => 26,
            KeyCode::KeyI => 27,
            KeyCode::KeyJ => 28,
            KeyCode::KeyK => 29,
            KeyCode::KeyL => 30,
            KeyCode::KeyM => 31,
            KeyCode::KeyN => 32,
            KeyCode::KeyO => 33,
            KeyCode::KeyP => 34,
            KeyCode::KeyQ => 35,
            KeyCode::KeyR => 36,
            KeyCode::KeyS => 37,
            KeyCode::KeyT => 38,
            KeyCode::KeyU => 39,
            KeyCode::KeyV => 40,
            KeyCode::KeyW => 41,
            KeyCode::KeyX => 42,
            KeyCode::KeyY => 43,
            KeyCode::KeyZ => 44,
            KeyCode::Minus => 45,
            KeyCode::Period => 46,
            KeyCode::Quote => 47,
            KeyCode::Semicolon => 48,
            KeyCode::Slash => 49,
            KeyCode::AltLeft => 50,
            KeyCode::AltRight => 51,
            KeyCode::Backspace => 52,
            KeyCode::CapsLock => 53,
            KeyCode::ContextMenu => 54,
            KeyCode::ControlLeft => 55,
            KeyCode::ControlRight => 56,
            KeyCode::Enter => 57,
            KeyCode::SuperLeft => 58,
            KeyCode::SuperRight => 59,
            KeyCode::ShiftLeft => 60,
            KeyCode::ShiftRight => 61,
            KeyCode::Space => 62,
            KeyCode::Tab => 63,
            KeyCode::Convert => 64,
            KeyCode::KanaMode => 65,
            KeyCode::Lang1 => 66,
            KeyCode::Lang2 => 67,
            KeyCode::Lang3 => 68,
            KeyCode::Lang4 => 69,
            KeyCode::Lang5 => 70,
            KeyCode::NonConvert => 71,
            KeyCode::Delete => 72,
            KeyCode::End => 73,
            KeyCode::Help => 74,
            KeyCode::Home => 75,
            KeyCode::Insert => 76,
            KeyCode::PageDown => 77,
            KeyCode::PageUp => 78,
            KeyCode::ArrowDown => 79,
            KeyCode::ArrowLeft => 80,
            KeyCode::ArrowRight => 81,
            KeyCode::ArrowUp => 82,
            KeyCode::NumLock => 83,
            KeyCode::Numpad0 => 84,
            KeyCode::Numpad1 => 85,
            KeyCode::Numpad2 => 86,
            KeyCode::Numpad3 => 87,
            KeyCode::Numpad4 => 88,
            KeyCode::Numpad5 => 89,
            KeyCode::Numpad6 => 90,
            KeyCode::Numpad7 => 91,
            KeyCode::Numpad8 => 92,
            KeyCode::Numpad9 => 93,
            KeyCode::NumpadAdd => 94,
            KeyCode::NumpadBackspace => 95,
            KeyCode::NumpadClear => 96,
            KeyCode::NumpadClearEntry => 97,
            KeyCode::NumpadComma => 98,
            KeyCode::NumpadDecimal => 99,
            KeyCode::NumpadDivide => 100,
            KeyCode::NumpadEnter => 101,
            KeyCode::NumpadEqual => 102,
            KeyCode::NumpadHash => 103,
            KeyCode::NumpadMemoryAdd => 104,
            KeyCode::NumpadMemoryClear => 105,
            KeyCode::NumpadMemoryRecall => 106,
            KeyCode::NumpadMemoryStore => 107,
            KeyCode::NumpadMemorySubtract => 108,
            KeyCode::NumpadMultiply => 109,
            KeyCode::NumpadParenLeft => 110,
            KeyCode::NumpadParenRight => 111,
            KeyCode::NumpadStar => 112,
            KeyCode::NumpadSubtract => 113,
            KeyCode::Escape => 114,
            KeyCode::Fn => 115,
            KeyCode::FnLock => 116,
            KeyCode::PrintScreen => 117,
            KeyCode::ScrollLock => 118,
            KeyCode::Pause => 119,
            KeyCode::BrowserBack => 120,
            KeyCode::BrowserFavorites => 121,
            KeyCode::BrowserForward => 122,
            KeyCode::BrowserHome => 123,
            KeyCode::BrowserRefresh => 124,
            KeyCode::BrowserSearch => 125,
            KeyCode::BrowserStop => 126,
            KeyCode::Eject => 127,
            KeyCode::LaunchApp1 => 128,
            KeyCode::LaunchApp2 => 129,
            KeyCode::LaunchMail => 130,
            KeyCode::MediaPlayPause => 131,
            KeyCode::MediaSelect => 132,
            KeyCode::MediaStop => 133,
            KeyCode::MediaTrackNext => 134,
            KeyCode::MediaTrackPrevious => 135,
            KeyCode::Power => 136,
            KeyCode::Sleep => 137,
            KeyCode::AudioVolumeDown => 138,
            KeyCode::AudioVolumeMute => 139,
            KeyCode::AudioVolumeUp => 140,
            KeyCode::WakeUp => 141,
            KeyCode::Abort => 142,
            KeyCode::Resume => 143,
            KeyCode::Suspend => 144,
            KeyCode::Again => 145,
            KeyCode::Copy => 146,
            KeyCode::Cut => 147,
            KeyCode::Find => 148,
            KeyCode::Open => 149,
            KeyCode::Paste => 150,
            KeyCode::Props => 151,
            KeyCode::Select => 152,
            KeyCode::Undo => 153,
            KeyCode::Hiragana => 154,
            KeyCode::Katakana => 155,
            KeyCode::F1 => 156,
            KeyCode::F2 => 157,
            KeyCode::F3 => 158,
            KeyCode::F4 => 159,
            KeyCode::F5 => 160,
            KeyCode::F6 => 161,
            KeyCode::F7 => 162,
            KeyCode::F8 => 163,
            KeyCode::F9 => 164,
            KeyCode::F10 => 165,
            KeyCode::F11 => 166,
            KeyCode::F12 => 167,
            KeyCode::F13 => 168,
            KeyCode::F14 => 169,
            KeyCode::F15 => 170,
            KeyCode::F16 => 171,
            KeyCode::F17 => 172,
            KeyCode::F18 => 173,
            KeyCode::F19 => 174,
            KeyCode::F20 => 175,
            KeyCode::F21 => 176,
            KeyCode::F22 => 177,
            KeyCode::F23 => 178,
            KeyCode::F24 => 179,
            KeyCode::F25 => 180,
            KeyCode::F26 => 181,
            KeyCode::F27 => 182,
            KeyCode::F28 => 183,
            KeyCode::F29 => 184,
            KeyCode::F30 => 185,
            KeyCode::F31 => 186,
            KeyCode::F32 => 187,
            KeyCode::F33 => 188,
            KeyCode::F34 => 189,
            KeyCode::F35 => 190,
            KeyCode::Unknown => 191,
        }
    }

    /// Each key is found again from its code.
    pub proof fn lemma_code_roundtrip(k: KeyCode)
        ensures
            KeyCode::from_spec_code(k.spec_code()) == k,
    {
    }

    /// Different keys have different codes.
    pub proof fn lemma_code_injective(a: KeyCode, b: KeyCode)
        ensures
            a.spec_code() == b.spec_code() ==> a == b,
    {
        KeyCode::lemma_code_roundtrip(a);
        KeyCode::lemma_code_roundtrip(b);
    }
}

} // verus!
