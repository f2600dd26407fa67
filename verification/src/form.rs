//! The device editor: reading a connection profile from the fields of the form.

use vstd::prelude::*;
use vstd::string::*;

use crate::model::{
    endpoint_error_text, endpoint_parse, endpoint_text, parse_endpoint, profile_fields_check,
    validation_text, CertificatePolicy, ConnectionProfile, DesktopConfig, ProfileId, ScaleMode,
    DEFAULT_RDP_PORT,
};
use crate::text::{
    decimal, decimal_string, find_char, first_index, lemma_first_index, owned, parse_u16,
    parse_u16_spec, parse_u32, parse_u32_spec, push_char, trim, trim_str,
};

verus! {

/// The texts of the device editor.
pub struct DeviceForm {
    pub name: String,
    pub host: String,
    pub port: String,
    pub username: String,
    pub desktop_width: String,
    pub desktop_height: String,
    pub desktop_scale: String,
}

/// The account text of a profile: `DOMAIN\\user` when it has a domain, else the user name.
pub open spec fn account_text(p: ConnectionProfile) -> Seq<char> {
    match p.domain {
        Some(d) => d@ + seq!['\\'] + p.username@,
        None => p.username@,
    }
}

/// Whether `form` shows the profile `p` in the editor.
pub open spec fn form_shows(form: DeviceForm, p: ConnectionProfile) -> bool {
    &&& form.name@ == p.label@
    &&& form.host@ == p.host@
    &&& form.port@ == decimal(p.port as nat)
    &&& form.username@ == account_text(p)
    &&& form.desktop_width@ == decimal(p.desktop.width as nat)
    &&& form.desktop_height@ == decimal(p.desktop.height as nat)
    &&& form.desktop_scale@ == decimal(p.desktop.scale_factor as nat)
}

/// The editor's fields for a profile.
pub fn form_for_profile(profile: &ConnectionProfile) -> (r: DeviceForm)
    ensures
        form_shows(r, *profile),
{
    let username = match &profile.domain {
        Some(domain) => {
            let mut text = owned(domain.as_str());
            push_char(&mut text, '\\');
            text.append(profile.username.as_str());
            proof {
                assert(text@ =~= domain@ + seq!['\\'] + profile.username@);
            }
            text
        },
        None => owned(profile.username.as_str()),
    };
    DeviceForm {
        name: owned(profile.label.as_str()),
        host: owned(profile.host.as_str()),
        port: decimal_string(profile.port as u64),
        username,
        desktop_width: decimal_string(profile.desktop.width as u64),
        desktop_height: decimal_string(profile.desktop.height as u64),
        desktop_scale: decimal_string(profile.desktop.scale_factor as u64),
    }
}

/// The port to use: the port field, unless it holds the default port, in which case the port
/// written in the host field (which is itself the default when there is none).
pub open spec fn chosen_port(field: u16, inline: u16) -> u16 {
    if field == DEFAULT_RDP_PORT {
        inline
    } else {
        field
    }
}

/// The domain and user name of a trimmed `DOMAIN\user` text; a text without a backslash is a
/// user name alone.
pub open spec fn split_account(user: Seq<char>) -> (Option<Seq<char>>, Seq<char>) {
    match first_index(user, '\\') {
        Some(i) => (Some(user.subrange(0, i)), user.subrange(i + 1, user.len() as int)),
        None => (None, user),
    }
}

/// Whether `p` is the profile that the form describes with identity `id`, before validation.
pub open spec fn form_profile(form: DeviceForm, id: ProfileId, p: ConnectionProfile) -> bool {
    &&& endpoint_parse(form.host@) matches Ok((host, inline))
    &&& parse_u16_spec(form.port@) matches Some(field)
    &&& parse_u16_spec(form.desktop_width@) matches Some(width)
    &&& parse_u16_spec(form.desktop_height@) matches Some(height)
    &&& parse_u32_spec(form.desktop_scale@) matches Some(scale)
    &&& p.id == id
    &&& p.host@ == host
    &&& p.port == chosen_port(field, inline)
    &&& p.username@ == split_account(trim(form.username@)).1
    &&& match split_account(trim(form.username@)).0 {
        Some(d) => p.domain matches Some(pd) && pd@ == d,
        None => p.domain is None,
    }
    &&& p.desktop == DesktopConfig { width, height, scale_factor: scale }
    &&& p.label@ == if trim(form.name@).len() == 0 {
        endpoint_text(host, chosen_port(field, inline))
    } else {
        trim(form.name@)
    }
    &&& p.scale_mode == ScaleMode::Fit
    &&& p.certificate_policy == (CertificatePolicy::TrustOnFirstUse { fingerprint: None })
}

/// The message the editor shows for a form that does not describe a valid profile, if any.
pub open spec fn form_problem(form: DeviceForm) -> Option<Seq<char>> {
    match endpoint_parse(form.host@) {
        Err(e) => Some(endpoint_error_text(e)),
        Ok((host, inline)) => match parse_u16_spec(form.port@) {
            None => Some("端口必须为 1–65535"@),
            Some(field) => match parse_u16_spec(form.desktop_width@) {
                None => Some("请输入有效的桌面宽度"@),
                Some(width) => match parse_u16_spec(form.desktop_height@) {
                    None => Some("请输入有效的桌面高度"@),
                    Some(height) => match parse_u32_spec(form.desktop_scale@) {
                        None => Some("请输入有效的缩放百分比"@),
                        Some(scale) => match profile_fields_check(
                            host,
                            chosen_port(field, inline),
                            split_account(trim(form.username@)).1,
                            DesktopConfig { width, height, scale_factor: scale },
                            CertificatePolicy::TrustOnFirstUse { fingerprint: None },
                        ) {
                            Err(e) => Some(validation_text(e)),
                            Ok(_) => None,
                        },
                    },
                },
            },
        },
    }
}

fn split_account_text(user: &str) -> (r: (Option<String>, String))
    ensures
        match split_account(user@).0 {
            Some(d) => r.0 matches Some(x) && x@ == d,
            None => r.0 is None,
        },
        r.1@ == split_account(user@).1,
{
    proof {
        lemma_first_index(user@, '\\');
    }
    match find_char(user, '\\') {
        Some(i) => {
            let n = user.unicode_len();
            let domain = owned(user.substring_char(0, i));
            let name = owned(user.substring_char(i + 1, n));
            (Some(domain), name)
        },
        None => (None, owned(user)),
    }
}

/// Reads the profile that the form describes, with identity `id`, and validates it; the error
/// is the message the editor shows.
pub fn profile_from_form(form: &DeviceForm, id: ProfileId) -> (r: Result<ConnectionProfile, String>)
    ensures
        form_problem(*form) is None ==> (r matches Ok(p) && form_profile(*form, id, p)),
        form_problem(*form) matches Some(m) ==> (r matches Err(e) && e@ == m),
{
    let (host, inline_port) = match parse_endpoint(form.host.as_str()) {
        Ok(v) => v,
        Err(e) => {
            let m = owned(e.message());
            return Err(m);
        },
    };
    let field_port = match parse_u16(form.port.as_str()) {
        Some(v) => v,
        None => {
            let m = String::from_str("端口必须为 1–65535");
            return Err(m);
        },
    };
    let port = if field_port == DEFAULT_RDP_PORT {
        inline_port
    } else {
        field_port
    };
    let width = match parse_u16(form.desktop_width.as_str()) {
        Some(v) => v,
        None => {
            let m = String::from_str("请输入有效的桌面宽度");
            return Err(m);
        },
    };
    let height = match parse_u16(form.desktop_height.as_str()) {
        Some(v) => v,
        None => {
            let m = String::from_str("请输入有效的桌面高度");
            return Err(m);
        },
    };
    let scale = match parse_u32(form.desktop_scale.as_str()) {
        Some(v) => v,
        None => {
            let m = String::from_str("请输入有效的缩放百分比");
            return Err(m);
        },
    };
    let (domain, username) = split_account_text(trim_str(form.username.as_str()));
    let name = trim_str(form.name.as_str());
    let mut profile = ConnectionProfile {
        id,
        label: owned(name),
        host,
        port,
        username,
        domain,
        desktop: DesktopConfig { width, height, scale_factor: scale },
        scale_mode: ScaleMode::Fit,
        certificate_policy: CertificatePolicy::TrustOnFirstUse { fingerprint: None },
    };
    if name.unicode_len() == 0 {
        profile.label = profile.endpoint();
    }
    proof {
        assert(form_profile(*form, id, profile));
    }
    match profile.validate() {
        Ok(()) => Ok(profile),
        Err(e) => Err(owned(e.message())),
    }
}

} // verus!
