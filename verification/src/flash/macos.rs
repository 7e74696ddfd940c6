//! What flashing on macOS decides: the raw device behind a disk path, the
//! authorization right that opens it, whether a saved authorization fits
//! the device, and whether the helper process handed over a usable
//! descriptor.
//!
//! The authorization is asked for before the download begins, so that the
//! user is prompted early, and is kept until the device is opened.

use crate::text::chars_of;
use crate::text::decimal;
use crate::text::replace_all;
use crate::text::replaced;
use crate::text::same_text;
use crate::text::to_decimal;
use vstd::prelude::*;

verus! {

/// Why a device could not be opened with a saved authorization.
#[derive(Debug)]
pub enum AuthorizationError {
    /// The device path holds a zero character.
    InvalidDevicePath,
    /// The authorization could not be put into its transferable form; the
    /// system's status is attached.
    ExternalFormFailed { status: i32 },
    /// No authorization was requested before.
    NotRequested,
    /// The saved authorization is for another device.
    Mismatch { saved_for: String, requested: String },
    /// The helper sent nothing back.
    NoDescriptor { received: i64 },
    /// The helper ended with this exit status.
    HelperFailed { status: i32 },
    /// The helper's message carried no control message.
    NoControlMessage,
    /// The control message is not one that passes descriptors.
    UnexpectedControlMessage,
    /// The descriptor that was passed is negative.
    InvalidDescriptor,
}

/// A number with its sign, in decimal.
pub open spec fn signed_decimal(n: int) -> Seq<char> {
    if n < 0 {
        seq!['-'] + decimal((-n) as nat)
    } else {
        decimal(n as nat)
    }
}

/// `n` as a decimal number with its sign.
pub fn to_signed_decimal(n: i64) -> (text: String)
    ensures
        text@ == signed_decimal(n as int),
{
    if n < 0 {
        let magnitude: u64 = if n == i64::MIN {
            9223372036854775808
        } else {
            (-n) as u64
        };
        let mut text = String::new();
        text.push('-');
        let digits = to_decimal(magnitude);
        text.append(digits.as_str());
        proof {
            assert(seq!['-'] =~= Seq::<char>::empty().push('-'));
        }
        text
    } else {
        to_decimal(n as u64)
    }
}

impl AuthorizationError {
    /// What the error says, in words.
    pub open spec fn text(self) -> Seq<char> {
        match self {
            AuthorizationError::InvalidDevicePath => "Invalid device path: contains null byte"@,
            AuthorizationError::ExternalFormFailed { status } => "Failed to create authorization: "@
                + signed_decimal(status as int),
            AuthorizationError::NotRequested =>
                "No authorization saved - call request_authorization first"@,
            AuthorizationError::Mismatch { saved_for, requested } =>
                "Authorization mismatch: saved for "@ + saved_for@ + " but trying to open "@
                    + requested@,
            AuthorizationError::NoDescriptor { received } =>
                "Failed to receive file descriptor (size="@ + signed_decimal(received as int)
                    + ")"@,
            AuthorizationError::HelperFailed { status } => "authopen failed with exit code "@
                + signed_decimal(status as int),
            AuthorizationError::NoControlMessage => "No control message received"@,
            AuthorizationError::UnexpectedControlMessage => "Unexpected control message type"@,
            AuthorizationError::InvalidDescriptor => "Received invalid file descriptor"@,
        }
    }

    /// The error as a message for the user.
    pub fn message(&self) -> (message: String)
        ensures
            message@ == self.text(),
    {
        match self {
            AuthorizationError::InvalidDevicePath =>
                "Invalid device path: contains null byte".to_owned(),
            AuthorizationError::ExternalFormFailed { status } => {
                let mut message = "Failed to create authorization: ".to_owned();
                let number = to_signed_decimal(*status as i64);
                message.append(number.as_str());
                message
            },
            AuthorizationError::NotRequested =>
                "No authorization saved - call request_authorization first".to_owned(),
            AuthorizationError::Mismatch { saved_for, requested } => {
                let mut message = "Authorization mismatch: saved for ".to_owned();
                message.append(saved_for.as_str());
                message.append(" but trying to open ");
                message.append(requested.as_str());
                message
            },
            AuthorizationError::NoDescriptor { received } => {
                let mut message = "Failed to receive file descriptor (size=".to_owned();
                let number = to_signed_decimal(*received);
                message.append(number.as_str());
                message.append(")");
                message
            },
            AuthorizationError::HelperFailed { status } => {
                let mut message = "authopen failed with exit code ".to_owned();
                let number = to_signed_decimal(*status as i64);
                message.append(number.as_str());
                message
            },
            AuthorizationError::NoControlMessage => "No control message received".to_owned(),
            AuthorizationError::UnexpectedControlMessage =>
                "Unexpected control message type".to_owned(),
            AuthorizationError::InvalidDescriptor => "Received invalid file descriptor".to_owned(),
        }
    }
}

/// A handle to an authorization that may move between threads.
#[derive(Debug, Clone, Copy, PartialEq, Eq, Structural)]
pub struct SendableAuthRef(pub usize);

/// An authorization kept between the request and the flash.
#[derive(Debug)]
pub struct SavedAuthorization {
    /// The system's handle to the authorization; it has to be freed when
    /// the flash is over, however it ends.
    pub auth_ref: SendableAuthRef,
    /// The authorization in the form that is handed to the helper.
    pub external_form: Vec<u8>,
    /// The raw device that the authorization is for.
    pub device_path: String,
}

/// The raw device of a disk: every `/dev/disk` in the path becomes
/// `/dev/rdisk`.
pub open spec fn raw_path(device_path: Seq<char>) -> Seq<char> {
    replaced(device_path, "/dev/disk"@, "/dev/rdisk"@)
}

/// The path of the raw device of `device_path`.
pub fn raw_device_path(device_path: &str) -> (raw: String)
    ensures
        raw@ == raw_path(device_path@),
{
    replace_all(device_path, "/dev/disk", "/dev/rdisk")
}

/// The name of the right to open a raw device for reading and writing.
pub fn authorization_right_name(raw_device: &str) -> (name: String)
    ensures
        name@ == "sys.openfile.readwrite."@ + raw_device@,
{
    let mut name = "sys.openfile.readwrite.".to_owned();
    name.append(raw_device);
    name
}

/// Can the path be handed to the system, which takes a zero as its end?
pub fn is_valid_device_path(device_path: &str) -> (valid: bool)
    ensures
        valid == !device_path@.contains('\0'),
{
    let chars = chars_of(device_path);
    let mut i: usize = 0;
    while i < chars.len()
        invariant
            0 <= i <= chars.len(),
            chars@ == device_path@,
            forall|j: int| 0 <= j < i ==> chars[j] != '\0',
        decreases chars.len() - i,
    {
        if chars[i] == '\0' {
            return false;
        }
        i += 1;
    }
    true
}

/// What a request for authorization comes to.  `create_status` is the
/// system's answer to the request, where anything but 0 means that the user
/// declined or could not be asked; `external_form_status` is its answer to
/// putting the authorization into transferable form, `None` if that was not
/// attempted.
pub fn authorization_result(create_status: i32, external_form_status: Option<i32>) -> (result:
    Result<bool, AuthorizationError>)
    ensures
        result == if create_status != 0 {
            Ok::<bool, AuthorizationError>(false)
        } else {
            match external_form_status {
                Some(status) => if status != 0 {
                    Err(AuthorizationError::ExternalFormFailed { status })
                } else {
                    Ok(true)
                },
                None => Ok(true),
            }
        },
{
    if create_status != 0 {
        return Ok(false);
    }
    match external_form_status {
        Some(status) => {
            if status != 0 {
                Err(AuthorizationError::ExternalFormFailed { status })
            } else {
                Ok(true)
            }
        },
        None => Ok(true),
    }
}

/// Takes the saved authorization for opening `device_path`.
///
/// An authorization that was saved for another device stays saved.
pub fn take_saved_authorization(saved: &mut Option<SavedAuthorization>, device_path: &str) -> (result:
    Result<SavedAuthorization, AuthorizationError>)
    ensures
        match *old(saved) {
            None => {
                &&& result is Err
                &&& result->Err_0 is NotRequested
                &&& *final(saved) == *old(saved)
            },
            Some(authorization) => if authorization.device_path@ == device_path@ {
                &&& result == Ok::<SavedAuthorization, AuthorizationError>(authorization)
                &&& *final(saved) is None
            } else {
                &&& result is Err
                &&& result->Err_0 is Mismatch
                &&& result->Err_0->saved_for@ == authorization.device_path@
                &&& result->Err_0->requested@ == device_path@
                &&& *final(saved) == *old(saved)
            },
        },
{
    match saved.take() {
        None => Err(AuthorizationError::NotRequested),
        Some(authorization) => {
            if same_text(authorization.device_path.as_str(), device_path) {
                Ok(authorization)
            } else {
                let saved_for = authorization.device_path.clone();
                *saved = Some(authorization);
                Err(
                    AuthorizationError::Mismatch {
                        saved_for,
                        requested: device_path.to_owned(),
                    },
                )
            }
        },
    }
}

/// What the helper process handed over.
#[derive(Debug, Clone, Copy)]
pub struct HelperReply {
    /// Bytes received on the socket, or what the failed attempt returned.
    pub received: i64,
    /// The helper ended by itself.
    pub exited: bool,
    /// Its exit status.
    pub exit_status: i32,
    /// The message carried a control message.
    pub has_control_message: bool,
    /// The control message is one that passes descriptors.
    pub passes_descriptors: bool,
    /// The descriptor found in the control message.
    pub descriptor: i32,
}

/// The descriptor that a helper's reply yields, or the first thing that is
/// wrong with the reply.
pub open spec fn descriptor_of(reply: HelperReply) -> Result<i32, AuthorizationError> {
    if reply.received <= 0 {
        Err(AuthorizationError::NoDescriptor { received: reply.received })
    } else if reply.exited && reply.exit_status != 0 {
        Err(AuthorizationError::HelperFailed { status: reply.exit_status })
    } else if !reply.has_control_message {
        Err(AuthorizationError::NoControlMessage)
    } else if !reply.passes_descriptors {
        Err(AuthorizationError::UnexpectedControlMessage)
    } else if reply.descriptor < 0 {
        Err(AuthorizationError::InvalidDescriptor)
    } else {
        Ok(reply.descriptor)
    }
}

/// Checks what the helper process handed over and returns the descriptor of
/// the opened device.  The helper has to have sent something, must not have
/// ended with a status other than 0, and has to have passed a descriptor
/// that is not negative.
pub fn check_helper_reply(reply: &HelperReply) -> (result: Result<i32, AuthorizationError>)
    ensures
        result == descriptor_of(*reply),
        result is Ok ==> result->Ok_0 >= 0,
{
    if reply.received <= 0 {
        Err(AuthorizationError::NoDescriptor { received: reply.received })
    } else if reply.exited && reply.exit_status != 0 {
        Err(AuthorizationError::HelperFailed { status: reply.exit_status })
    } else if !reply.has_control_message {
        Err(AuthorizationError::NoControlMessage)
    } else if !reply.passes_descriptors {
        Err(AuthorizationError::UnexpectedControlMessage)
    } else if reply.descriptor < 0 {
        Err(AuthorizationError::InvalidDescriptor)
    } else {
        Ok(reply.descriptor)
    }
}

} // verus!
