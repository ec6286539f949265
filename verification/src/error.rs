//! Reasons for which an operation is refused.
use vstd::prelude::*;

verus! {

/// Why an operation was refused.
#[derive(Debug, PartialEq, Eq)]
pub enum Error {
    UnsupportedTouchpadKeys,
    DuplicateTouchpadKey,
    MissingContactKeys,
    TouchpadKeysMissing,
    UnsupportedTouchpadProperties,
    InvalidAxisCount,
    UnsupportedAxis,
    InvalidAxisRange,
    InvalidAxisCalibration,
    NotMultiTouch,
    UnsupportedContactCount,
    InvalidFrameSize,
    InvalidTouchEvent,
    KeyNotAdvertised,
    AxisNotAdvertised,
    ValueOutsideAxis,
    ContactsUnreadable,
    InvalidCurrentSlot,
    TouchpadDelayed,
    VirtualSource,
    TooManyTouchpads,
    TouchpadQueueFull,
    TouchpadEventsLost,
    ForwardingQueueFull,
    FrameTooLarge,
    InfiniteCoordinates,
    ScreenTooSmall,
    InvalidBoundary,
    EmptyScreenName,
    DuplicateScreen,
    LinkWithinDevice,
    UnknownScreen,
    InvalidEdgeId,
    InvalidEdgePosition,
    DuplicateEdgeId,
    OverlappingEdges,
    InvalidEdgeCount,
    KeyboardQueueFull,
    InvalidTouchpadIndex,
    InvalidTouchTime,
    UnsupportedKey,
    UnsupportedButton,
    InvalidMotion,
    InvalidAbsolutePosition,
    InvalidScroll,
    OutputSelectionUnsupported,
    TouchpadsUnsupported,
    TouchpadsDuringInput,
    ZeroSession,
    CleanupIncomplete,
    SequenceMismatch,
    SequenceExhausted,
    NotAbsolute,
    ReleaseBeforeOutput,
    InvalidReply,
    NiriRejected,
    IncompleteReply,
    NoOutputs,
    LayersUnreadable,
    OverviewUnreadable,
    InvalidDesktop,
    InvalidDesktopOutput,
    InvalidRevision,
    InvalidLayoutResult,
    InvalidTransaction,
    RandomUnavailable,
    UnsupportedVersion,
    TooManyRemoteTouchpads,
    FrameTooLong,
    InvalidFrameLength,
    EdgeOutputMissing,
    ActivityDevicesMissing,
    MixedEdges,
    NotAKey,
    SessionsExhausted,
    CaptureDelayed,
    InputDelayed,
    NegotiationRepeated,
    NegotiationIncomplete,
    HandshakeRepeated,
    OverlappingSession,
    ReceiverBusy,
    SettingsBusy,
    SessionLocked,
    PeerOffline,
    SettingsConflict,
    ConfigInvalid,
    InputSelectionEmpty,
    InputPathInvalid,
    AddressInvalid,
    LayoutInvalid,
    OutputUnavailable,
    CertificateInvalid,
    CertificateChanged,
    PrivateKeySelected,
    CertificateNameAmbiguous,
    PairSameDevice,
    ConfigExists,
    SettingsPermissions,
    NotOneCertificate,
    CertificateTooLarge,
    CertificateUnreadable,
    KeyFileUnsafe,
    KeyFileForeign,
    KeyUnreadable,
    InvalidServerName,
    ProtocolMismatch,
    GreetingExpected,
    InvalidIdentityName,
    ClockImplausible,
    IdentityFailed,
    DirectoryUnsafe,
    IdentityExists,
    ForeignSession,
    MeasurementLimit,
    MeasurementsOnly,
    UnexpectedAnswer,
    InvalidDeviceCount,
    OwnDevice,
    TouchpadsChanged,
    OutputNotChosen,
    InvalidDuration,
    InvalidCaptureCount,
    ProbeNeedsOneEdge,
    SpanTooNarrow,
    InvalidStripSize,
    StripTooLarge,
    ForeignClient,
    InvalidRequest,
    ControlDirectoryUnsafe,
    AlreadyRunning,
    ControlPathOccupied,
    UnsupportedCompositor,
    ForeignCompositor,
    OtherSession,
    KwinNotFound,
    NoOutputManager,
    OutputNameMissing,
    OutputPositionMissing,
    OutputSizeMissing,
    InvalidOutputSize,
    OutputModeMissing,
    OutputTransformMissing,
    TouchpadNotNegotiated,
    NegotiationTwice,
    NotAPointerEvent,
    NotAKeyboardEvent,
    DesktopInputEnded,
    DesktopInputPaused,
    InvalidPoint,
    ProbeFailed,
    ProbeTooLarge,
    ShortcutLength,
    ShortcutOrder,
    ShortcutKeyUnknown,
    ShortcutInvalid,
    CaptureInterrupted,
    PortalPathUnexpected,
    PortalDenied,
    PointerNotGranted,
    NoActiveOutput,
    PointerNotFinite,
    InvalidFraction,
    InvalidInset,
    /// A failure that an input backend reports.
    Backend(String),
}

impl Error {
    /// The text that says why.
    pub open spec fn message(self) -> Seq<char> {
        match self {
            Error::UnsupportedTouchpadKeys => "Unsupported touchpad keys"@,
            Error::DuplicateTouchpadKey => "Duplicate touchpad key"@,
            Error::MissingContactKeys => "Touchpad contact capabilities are missing"@,
            Error::TouchpadKeysMissing => "Touchpad keys are missing"@,
            Error::UnsupportedTouchpadProperties => "Unsupported touchpad properties"@,
            Error::InvalidAxisCount => "Invalid touchpad axis count"@,
            Error::UnsupportedAxis => "Unsupported or duplicate touchpad axis"@,
            Error::InvalidAxisRange => "Invalid touchpad axis range"@,
            Error::InvalidAxisCalibration => "Invalid touchpad axis calibration"@,
            Error::NotMultiTouch => "A slot-based multi-touch touchpad is required"@,
            Error::UnsupportedContactCount => "Unsupported touchpad contact count"@,
            Error::InvalidFrameSize => "Invalid touchpad frame size"@,
            Error::InvalidTouchEvent => "Invalid touchpad event"@,
            Error::KeyNotAdvertised => "Touchpad key was not advertised"@,
            Error::AxisNotAdvertised => "Touchpad axis was not advertised"@,
            Error::ValueOutsideAxis => "Touchpad value is outside its axis range"@,
            Error::ContactsUnreadable => "Cannot inspect touchpad contacts"@,
            Error::InvalidCurrentSlot => "Touchpad has an invalid current slot"@,
            Error::TouchpadDelayed => "Touchpad input became too delayed; restoring local control"@,
            Error::VirtualSource => "A virtual device cannot be a physical touchpad source"@,
            Error::TooManyTouchpads => "At most four touchpads may be shared"@,
            Error::TouchpadQueueFull => "Touchpad input queue is full"@,
            Error::TouchpadEventsLost => "Touchpad events were lost; restoring local control"@,
            Error::ForwardingQueueFull => "Touchpad forwarding queue is full"@,
            Error::FrameTooLarge => "Touchpad frame is too large"@,
            Error::InfiniteCoordinates => "Screen coordinates must be finite"@,
            Error::ScreenTooSmall => "Screen dimensions must be at least one logical pixel"@,
            Error::InvalidBoundary => "Boundary span must satisfy 0 <= start < end <= 1"@,
            Error::EmptyScreenName => "Device and output names cannot be empty"@,
            Error::DuplicateScreen => "Duplicate screen in layout"@,
            Error::LinkWithinDevice => "A cross-device link must connect different devices"@,
            Error::UnknownScreen => "Link refers to an unknown screen"@,
            Error::InvalidEdgeId => "Invalid edge identifier"@,
            Error::InvalidEdgePosition => "Invalid edge position"@,
            Error::DuplicateEdgeId => "Duplicate edge identifier"@,
            Error::OverlappingEdges => "Connection ranges overlap on the same display edge"@,
            Error::InvalidEdgeCount => "Configure between one and sixteen connections"@,
            Error::KeyboardQueueFull => "Physical keyboard queue is full; restoring local control"@,
            Error::InvalidTouchpadIndex => "Invalid touchpad index"@,
            Error::InvalidTouchTime => "Invalid touchpad event time"@,
            Error::UnsupportedKey => "Unsupported keyboard code"@,
            Error::UnsupportedButton => "Unsupported pointer button"@,
            Error::InvalidMotion => "Invalid relative motion"@,
            Error::InvalidAbsolutePosition => "Invalid absolute position"@,
            Error::InvalidScroll => "Invalid scroll amount"@,
            Error::OutputSelectionUnsupported => "This input backend cannot select a pointer output"@,
            Error::TouchpadsUnsupported => "This input backend does not support native touchpads"@,
            Error::TouchpadsDuringInput => "Cannot change touchpad devices during input"@,
            Error::ZeroSession => "Session identifier cannot be zero"@,
            Error::CleanupIncomplete => "Backend cleanup must complete before a new session"@,
            Error::SequenceMismatch => "Input sequence mismatch"@,
            Error::SequenceExhausted => "Input sequence exhausted"@,
            Error::NotAbsolute => "Only an absolute pointer placement is allowed here"@,
            Error::ReleaseBeforeOutput => "Release active input before changing pointer output"@,
            Error::InvalidReply => "Niri returned an unreadable response"@,
            Error::NiriRejected => "Niri rejected the request"@,
            Error::IncompleteReply => "Niri returned an incomplete or oversized response"@,
            Error::NoOutputs => "Niri returned no outputs"@,
            Error::LayersUnreadable => "Cannot inspect capture layers"@,
            Error::OverviewUnreadable => "Cannot read overview state"@,
            Error::InvalidDesktop => "Invalid desktop metadata"@,
            Error::InvalidDesktopOutput => "Invalid desktop output"@,
            Error::InvalidRevision => "Invalid layout revision"@,
            Error::InvalidLayoutResult => "Invalid layout result"@,
            Error::InvalidTransaction => "Invalid layout transaction"@,
            Error::RandomUnavailable => "Random source unavailable"@,
            Error::UnsupportedVersion => "Unsupported protocol version"@,
            Error::TooManyRemoteTouchpads => "Too many touchpads"@,
            Error::FrameTooLong => "Protocol frame too large"@,
            Error::InvalidFrameLength => "Invalid protocol frame length"@,
            Error::EdgeOutputMissing => "Choose the connected output for the boundary"@,
            Error::ActivityDevicesMissing => "Configure physical input devices for takeover detection"@,
            Error::MixedEdges => "Configure either one edge or a list of edges"@,
            Error::NotAKey => "Physical keyboard returned a non-key event"@,
            Error::SessionsExhausted => "Session identifiers exhausted"@,
            Error::CaptureDelayed => "Input queue became too delayed; restoring local control"@,
            Error::InputDelayed => "Received input was delayed; restoring local control"@,
            Error::NegotiationRepeated => "Touchpad negotiation was repeated"@,
            Error::NegotiationIncomplete => "Touchpad negotiation is incomplete"@,
            Error::HandshakeRepeated => "Unexpected repeated protocol handshake"@,
            Error::OverlappingSession => "Unexpected overlapping input session"@,
            Error::ReceiverBusy => "Receiver is busy"@,
            Error::SettingsBusy => "settings_busy"@,
            Error::SessionLocked => "session_locked"@,
            Error::PeerOffline => "peer_offline"@,
            Error::SettingsConflict => "settings_conflict"@,
            Error::ConfigInvalid => "config_invalid"@,
            Error::InputSelectionEmpty => "input_selection_empty"@,
            Error::InputPathInvalid => "input_path_invalid"@,
            Error::AddressInvalid => "address_invalid"@,
            Error::LayoutInvalid => "layout_invalid"@,
            Error::OutputUnavailable => "output_unavailable"@,
            Error::CertificateInvalid => "certificate_invalid"@,
            Error::CertificateChanged => "certificate_changed"@,
            Error::PrivateKeySelected => "private_key_selected"@,
            Error::CertificateNameAmbiguous => "certificate_name_ambiguous"@,
            Error::PairSameDevice => "pair_same_device"@,
            Error::ConfigExists => "config_exists"@,
            Error::SettingsPermissions => "settings_permissions"@,
            Error::NotOneCertificate => "Expected exactly one peer certificate"@,
            Error::CertificateTooLarge => "Certificate file exceeds size limit"@,
            Error::CertificateUnreadable => "Cannot read the certificate"@,
            Error::KeyFileUnsafe => "Private key must be an owner-only regular file within the size limit"@,
            Error::KeyFileForeign => "Private key must belong to the current user"@,
            Error::KeyUnreadable => "No readable private key found"@,
            Error::InvalidServerName => "Invalid peer certificate name"@,
            Error::ProtocolMismatch => "Peer protocol negotiation failed"@,
            Error::GreetingExpected => "Expected protocol hello"@,
            Error::InvalidIdentityName => "Identity name must be a lowercase DNS label"@,
            Error::ClockImplausible => "The system clock does not allow a certificate"@,
            Error::IdentityFailed => "Could not create the identity"@,
            Error::DirectoryUnsafe => "Identity directory must be owned by you and have mode 0700"@,
            Error::IdentityExists => "An identity already exists; it was not changed"@,
            Error::ForeignSession => "The selected session is not this user's Wayland session"@,
            Error::MeasurementLimit => "Measurement limit exceeded"@,
            Error::MeasurementsOnly => "Network probe accepts measurements only"@,
            Error::UnexpectedAnswer => "Unexpected measurement response"@,
            Error::InvalidDeviceCount => "Configure between one and 32 physical activity devices"@,
            Error::OwnDevice => "A NiriBridge virtual device cannot be used for physical takeover detection"@,
            Error::TouchpadsChanged => "Touchpad capabilities changed; reconnect to renegotiate them"@,
            Error::OutputNotChosen => "Choose an output from doctor"@,
            Error::InvalidDuration => "Capture duration must be between 1 and 30 seconds"@,
            Error::InvalidCaptureCount => "Invalid capture edge count"@,
            Error::ProbeNeedsOneEdge => "Capture probes use one edge"@,
            Error::SpanTooNarrow => "Capture span is narrower than one logical pixel"@,
            Error::InvalidStripSize => "Invalid capture strip size"@,
            Error::StripTooLarge => "Capture strip exceeds buffer limit"@,
            Error::ForeignClient => "Control client is not the current user"@,
            Error::InvalidRequest => "Invalid control request"@,
            Error::ControlDirectoryUnsafe => "Control directory must be private and user-owned"@,
            Error::AlreadyRunning => "NiriBridge is already running"@,
            Error::ControlPathOccupied => "Existing control path was preserved"@,
            Error::UnsupportedCompositor => "This compositor is not supported; use Niri or KDE Plasma Wayland"@,
            Error::ForeignCompositor => "Compositor must belong to the current user"@,
            Error::OtherSession => "Niri IPC belongs to a different graphical session"@,
            Error::KwinNotFound => "Cannot identify the active KWin compositor"@,
            Error::NoOutputManager => "Logical output protocol unavailable"@,
            Error::OutputNameMissing => "Output name unavailable"@,
            Error::OutputPositionMissing => "Logical position unavailable"@,
            Error::OutputSizeMissing => "Logical size unavailable"@,
            Error::InvalidOutputSize => "Invalid logical output size"@,
            Error::OutputModeMissing => "Current output mode unavailable"@,
            Error::OutputTransformMissing => "Output transform unavailable"@,
            Error::TouchpadNotNegotiated => "Touchpad was not negotiated"@,
            Error::NegotiationTwice => "Touchpad negotiation may occur only once"@,
            Error::NotAPointerEvent => "Pointer backend received a non-pointer event"@,
            Error::NotAKeyboardEvent => "Keyboard backend received a pointer event"@,
            Error::DesktopInputEnded => "Desktop input authorization ended; start sharing again"@,
            Error::DesktopInputPaused => "Desktop input is paused or unavailable"@,
            Error::InvalidPoint => "Invalid pointer coordinates"@,
            Error::ProbeFailed => "Probe failed or timed out"@,
            Error::ProbeTooLarge => "Probe output exceeded limit"@,
            Error::ShortcutLength => "Use a modifier chord for the overview test"@,
            Error::ShortcutOrder => "Only the last part may be a non-modifier key"@,
            Error::ShortcutKeyUnknown => "Unsupported shortcut key name"@,
            Error::ShortcutInvalid => "Invalid shortcut key sequence"@,
            Error::CaptureInterrupted => "Capture was interrupted"@,
            Error::PortalPathUnexpected => "Portal returned an unexpected request path"@,
            Error::PortalDenied => "Desktop control was cancelled or denied; start sharing to try again"@,
            Error::PointerNotGranted => "Desktop pointer control was not granted"@,
            Error::NoActiveOutput => "No active output is available"@,
            Error::PointerNotFinite => "Pointer coordinates must be finite"@,
            Error::InvalidFraction => "Boundary fraction must be between zero and one"@,
            Error::InvalidInset => "Entry inset must be finite and positive"@,
            Error::Backend(text) => text@,
        }
    }

    /// The text that says why.
    pub fn text(&self) -> (r: String)
        ensures
            r@ == self.message(),
    {
        let fixed = match self {
            Error::UnsupportedTouchpadKeys => "Unsupported touchpad keys",
            Error::DuplicateTouchpadKey => "Duplicate touchpad key",
            Error::MissingContactKeys => "Touchpad contact capabilities are missing",
            Error::TouchpadKeysMissing => "Touchpad keys are missing",
            Error::UnsupportedTouchpadProperties => "Unsupported touchpad properties",
            Error::InvalidAxisCount => "Invalid touchpad axis count",
            Error::UnsupportedAxis => "Unsupported or duplicate touchpad axis",
            Error::InvalidAxisRange => "Invalid touchpad axis range",
            Error::InvalidAxisCalibration => "Invalid touchpad axis calibration",
            Error::NotMultiTouch => "A slot-based multi-touch touchpad is required",
            Error::UnsupportedContactCount => "Unsupported touchpad contact count",
            Error::InvalidFrameSize => "Invalid touchpad frame size",
            Error::InvalidTouchEvent => "Invalid touchpad event",
            Error::KeyNotAdvertised => "Touchpad key was not advertised",
            Error::AxisNotAdvertised => "Touchpad axis was not advertised",
            Error::ValueOutsideAxis => "Touchpad value is outside its axis range",
            Error::ContactsUnreadable => "Cannot inspect touchpad contacts",
            Error::InvalidCurrentSlot => "Touchpad has an invalid current slot",
            Error::TouchpadDelayed => "Touchpad input became too delayed; restoring local control",
            Error::VirtualSource => "A virtual device cannot be a physical touchpad source",
            Error::TooManyTouchpads => "At most four touchpads may be shared",
            Error::TouchpadQueueFull => "Touchpad input queue is full",
            Error::TouchpadEventsLost => "Touchpad events were lost; restoring local control",
            Error::ForwardingQueueFull => "Touchpad forwarding queue is full",
            Error::FrameTooLarge => "Touchpad frame is too large",
            Error::InfiniteCoordinates => "Screen coordinates must be finite",
            Error::ScreenTooSmall => "Screen dimensions must be at least one logical pixel",
            Error::InvalidBoundary => "Boundary span must satisfy 0 <= start < end <= 1",
            Error::EmptyScreenName => "Device and output names cannot be empty",
            Error::DuplicateScreen => "Duplicate screen in layout",
            Error::LinkWithinDevice => "A cross-device link must connect different devices",
            Error::UnknownScreen => "Link refers to an unknown screen",
            Error::InvalidEdgeId => "Invalid edge identifier",
            Error::InvalidEdgePosition => "Invalid edge position",
            Error::DuplicateEdgeId => "Duplicate edge identifier",
            Error::OverlappingEdges => "Connection ranges overlap on the same display edge",
            Error::InvalidEdgeCount => "Configure between one and sixteen connections",
            Error::KeyboardQueueFull => "Physical keyboard queue is full; restoring local control",
            Error::InvalidTouchpadIndex => "Invalid touchpad index",
            Error::InvalidTouchTime => "Invalid touchpad event time",
            Error::UnsupportedKey => "Unsupported keyboard code",
            Error::UnsupportedButton => "Unsupported pointer button",
            Error::InvalidMotion => "Invalid relative motion",
            Error::InvalidAbsolutePosition => "Invalid absolute position",
            Error::InvalidScroll => "Invalid scroll amount",
            Error::OutputSelectionUnsupported => "This input backend cannot select a pointer output",
            Error::TouchpadsUnsupported => "This input backend does not support native touchpads",
            Error::TouchpadsDuringInput => "Cannot change touchpad devices during input",
            Error::ZeroSession => "Session identifier cannot be zero",
            Error::CleanupIncomplete => "Backend cleanup must complete before a new session",
            Error::SequenceMismatch => "Input sequence mismatch",
            Error::SequenceExhausted => "Input sequence exhausted",
            Error::NotAbsolute => "Only an absolute pointer placement is allowed here",
            Error::ReleaseBeforeOutput => "Release active input before changing pointer output",
            Error::InvalidReply => "Niri returned an unreadable response",
            Error::NiriRejected => "Niri rejected the request",
            Error::IncompleteReply => "Niri returned an incomplete or oversized response",
            Error::NoOutputs => "Niri returned no outputs",
            Error::LayersUnreadable => "Cannot inspect capture layers",
            Error::OverviewUnreadable => "Cannot read overview state",
            Error::InvalidDesktop => "Invalid desktop metadata",
            Error::InvalidDesktopOutput => "Invalid desktop output",
            Error::InvalidRevision => "Invalid layout revision",
            Error::InvalidLayoutResult => "Invalid layout result",
            Error::InvalidTransaction => "Invalid layout transaction",
            Error::RandomUnavailable => "Random source unavailable",
            Error::UnsupportedVersion => "Unsupported protocol version",
            Error::TooManyRemoteTouchpads => "Too many touchpads",
            Error::FrameTooLong => "Protocol frame too large",
            Error::InvalidFrameLength => "Invalid protocol frame length",
            Error::EdgeOutputMissing => "Choose the connected output for the boundary",
            Error::ActivityDevicesMissing => "Configure physical input devices for takeover detection",
            Error::MixedEdges => "Configure either one edge or a list of edges",
            Error::NotAKey => "Physical keyboard returned a non-key event",
            Error::SessionsExhausted => "Session identifiers exhausted",
            Error::CaptureDelayed => "Input queue became too delayed; restoring local control",
            Error::InputDelayed => "Received input was delayed; restoring local control",
            Error::NegotiationRepeated => "Touchpad negotiation was repeated",
            Error::NegotiationIncomplete => "Touchpad negotiation is incomplete",
            Error::HandshakeRepeated => "Unexpected repeated protocol handshake",
            Error::OverlappingSession => "Unexpected overlapping input session",
            Error::ReceiverBusy => "Receiver is busy",
            Error::SettingsBusy => "settings_busy",
            Error::SessionLocked => "session_locked",
            Error::PeerOffline => "peer_offline",
            Error::SettingsConflict => "settings_conflict",
            Error::ConfigInvalid => "config_invalid",
            Error::InputSelectionEmpty => "input_selection_empty",
            Error::InputPathInvalid => "input_path_invalid",
            Error::AddressInvalid => "address_invalid",
            Error::LayoutInvalid => "layout_invalid",
            Error::OutputUnavailable => "output_unavailable",
            Error::CertificateInvalid => "certificate_invalid",
            Error::CertificateChanged => "certificate_changed",
            Error::PrivateKeySelected => "private_key_selected",
            Error::CertificateNameAmbiguous => "certificate_name_ambiguous",
            Error::PairSameDevice => "pair_same_device",
            Error::ConfigExists => "config_exists",
            Error::SettingsPermissions => "settings_permissions",
            Error::NotOneCertificate => "Expected exactly one peer certificate",
            Error::CertificateTooLarge => "Certificate file exceeds size limit",
            Error::CertificateUnreadable => "Cannot read the certificate",
            Error::KeyFileUnsafe => "Private key must be an owner-only regular file within the size limit",
            Error::KeyFileForeign => "Private key must belong to the current user",
            Error::KeyUnreadable => "No readable private key found",
            Error::InvalidServerName => "Invalid peer certificate name",
            Error::ProtocolMismatch => "Peer protocol negotiation failed",
            Error::GreetingExpected => "Expected protocol hello",
            Error::InvalidIdentityName => "Identity name must be a lowercase DNS label",
            Error::ClockImplausible => "The system clock does not allow a certificate",
            Error::IdentityFailed => "Could not create the identity",
            Error::DirectoryUnsafe => "Identity directory must be owned by you and have mode 0700",
            Error::IdentityExists => "An identity already exists; it was not changed",
            Error::ForeignSession => "The selected session is not this user's Wayland session",
            Error::MeasurementLimit => "Measurement limit exceeded",
            Error::MeasurementsOnly => "Network probe accepts measurements only",
            Error::UnexpectedAnswer => "Unexpected measurement response",
            Error::InvalidDeviceCount => "Configure between one and 32 physical activity devices",
            Error::OwnDevice => "A NiriBridge virtual device cannot be used for physical takeover detection",
            Error::TouchpadsChanged => "Touchpad capabilities changed; reconnect to renegotiate them",
            Error::OutputNotChosen => "Choose an output from doctor",
            Error::InvalidDuration => "Capture duration must be between 1 and 30 seconds",
            Error::InvalidCaptureCount => "Invalid capture edge count",
            Error::ProbeNeedsOneEdge => "Capture probes use one edge",
            Error::SpanTooNarrow => "Capture span is narrower than one logical pixel",
            Error::InvalidStripSize => "Invalid capture strip size",
            Error::StripTooLarge => "Capture strip exceeds buffer limit",
            Error::ForeignClient => "Control client is not the current user",
            Error::InvalidRequest => "Invalid control request",
            Error::ControlDirectoryUnsafe => "Control directory must be private and user-owned",
            Error::AlreadyRunning => "NiriBridge is already running",
            Error::ControlPathOccupied => "Existing control path was preserved",
            Error::UnsupportedCompositor => "This compositor is not supported; use Niri or KDE Plasma Wayland",
            Error::ForeignCompositor => "Compositor must belong to the current user",
            Error::OtherSession => "Niri IPC belongs to a different graphical session",
            Error::KwinNotFound => "Cannot identify the active KWin compositor",
            Error::NoOutputManager => "Logical output protocol unavailable",
            Error::OutputNameMissing => "Output name unavailable",
            Error::OutputPositionMissing => "Logical position unavailable",
            Error::OutputSizeMissing => "Logical size unavailable",
            Error::InvalidOutputSize => "Invalid logical output size",
            Error::OutputModeMissing => "Current output mode unavailable",
            Error::OutputTransformMissing => "Output transform unavailable",
            Error::TouchpadNotNegotiated => "Touchpad was not negotiated",
            Error::NegotiationTwice => "Touchpad negotiation may occur only once",
            Error::NotAPointerEvent => "Pointer backend received a non-pointer event",
            Error::NotAKeyboardEvent => "Keyboard backend received a pointer event",
            Error::DesktopInputEnded => "Desktop input authorization ended; start sharing again",
            Error::DesktopInputPaused => "Desktop input is paused or unavailable",
            Error::InvalidPoint => "Invalid pointer coordinates",
            Error::ProbeFailed => "Probe failed or timed out",
            Error::ProbeTooLarge => "Probe output exceeded limit",
            Error::ShortcutLength => "Use a modifier chord for the overview test",
            Error::ShortcutOrder => "Only the last part may be a non-modifier key",
            Error::ShortcutKeyUnknown => "Unsupported shortcut key name",
            Error::ShortcutInvalid => "Invalid shortcut key sequence",
            Error::CaptureInterrupted => "Capture was interrupted",
            Error::PortalPathUnexpected => "Portal returned an unexpected request path",
            Error::PortalDenied => "Desktop control was cancelled or denied; start sharing to try again",
            Error::PointerNotGranted => "Desktop pointer control was not granted",
            Error::NoActiveOutput => "No active output is available",
            Error::PointerNotFinite => "Pointer coordinates must be finite",
            Error::InvalidFraction => "Boundary fraction must be between zero and one",
            Error::InvalidInset => "Entry inset must be finite and positive",
            Error::Backend(text) => return text.clone(),
        };
        fixed.to_owned()
    }
}

} // verus!
