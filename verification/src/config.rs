//! Startup configuration: which file to offer, under which policy, and on
//! which ports. Every setting has a demo-friendly default.

use vstd::prelude::*;
use crate::decimal::{dec, decimal_string, digit_value, digits_value, lemma_dec_canonical};
use crate::offer::{constraint_views, permission_views, ConstraintSpec, ConstraintView, FileOffer, PermissionSpec};
use crate::registration::DataPlaneRegistration;

verus! {

/// The number the text of a `u16` setting denotes, read as Rust's
/// `u16::from_str` reads it: an optional `+`, then one or more ASCII digits
/// (leading zeros allowed), at most 65535.
pub open spec fn port_value(s: Seq<char>) -> Option<nat> {
    let body = port_digits(s);
    if body.len() > 0 && all_digits(body) && digits_value(body) <= 65535 {
        Some(digits_value(body))
    } else {
        None
    }
}

/// The text after an optional leading `+`.
pub open spec fn port_digits(s: Seq<char>) -> Seq<char> {
    if s.len() > 0 && s[0] == '+' { s.skip(1) } else { s }
}

pub open spec fn all_digits(s: Seq<char>) -> bool {
    forall|i: int| 0 <= i < s.len() ==> digit_value(#[trigger] s[i]) < 10
}

proof fn lemma_prefix_value_mono(s: Seq<char>, k: int)
    requires
        0 <= k <= s.len(),
        forall|i: int| 0 <= i < s.len() ==> digit_value(#[trigger] s[i]) < 10,
    ensures
        digits_value(s.subrange(0, k)) <= digits_value(s),
    decreases s.len() - k,
{
    if k < s.len() {
        lemma_prefix_value_mono(s, k + 1);
        assert(s.subrange(0, k + 1).drop_last() =~= s.subrange(0, k));
    } else {
        assert(s.subrange(0, k) =~= s);
    }
}

/// `k` zero digits.
pub open spec fn zeros(k: nat) -> Seq<char> {
    Seq::new(k, |i: int| '0')
}

proof fn lemma_leading_zeros_value(k: nat, s: Seq<char>)
    ensures
        digits_value(zeros(k) + s) == digits_value(s),
        all_digits(s) ==> all_digits(zeros(k) + s),
    decreases s.len(), k,
{
    if s.len() == 0 {
        if k > 0 {
            lemma_leading_zeros_value((k - 1) as nat, s);
            assert((zeros(k) + s).drop_last() =~= zeros((k - 1) as nat) + s);
            assert((zeros(k) + s).last() == '0');
        } else {
            assert(zeros(k) + s =~= s);
        }
    } else {
        lemma_leading_zeros_value(k, s.drop_last());
        assert((zeros(k) + s).drop_last() =~= zeros(k) + s.drop_last());
        assert((zeros(k) + s).last() == s.last());
    }
    if all_digits(s) {
        assert forall|i: int| 0 <= i < (zeros(k) + s).len() implies digit_value(#[trigger] (zeros(k) + s)[i]) < 10 by {
            if i >= k {
                assert((zeros(k) + s)[i] == s[i - k]);
            }
        }
    }
}

/// A port setting reads as `u16::from_str` reads it: the decimal text of
/// every number up to 65535, written plainly, after a `+`, or after any
/// number of leading zeros, reads back as that number, and the decimal
/// text of a larger number is refused; text that is empty or holds a
/// character other than the digits after an optional leading `+` is
/// refused.
pub proof fn law_port_text_reads_back(n: nat, k: nat, s: Seq<char>)
    ensures
        n <= 65535 ==> port_value(dec(n)) == Some(n),
        n <= 65535 ==> port_value(seq!['+'] + dec(n)) == Some(n),
        n <= 65535 ==> port_value(zeros(k) + dec(n)) == Some(n),
        n > 65535 ==> port_value(dec(n)) is None,
        port_value(Seq::<char>::empty()) is None,
        port_value(seq!['+']) is None,
        (exists|i: int| 0 <= i < port_digits(s).len() && digit_value(#[trigger] port_digits(s)[i]) == 10)
            ==> port_value(s) is None,
{
    lemma_dec_canonical(n);
    let d = dec(n);
    assert(d[0] != '+');
    assert(port_digits(d) == d);
    assert((seq!['+'] + d).skip(1) =~= d);
    assert(port_digits(seq!['+'] + d) == d);
    lemma_leading_zeros_value(k, d);
    if k > 0 {
        assert((zeros(k) + d)[0] == '0');
    } else {
        assert(zeros(k) + d =~= d);
    }
    assert(port_digits(zeros(k) + d) == zeros(k) + d);
    assert(seq!['+'].skip(1) =~= Seq::<char>::empty());
}

/// Reads a port number, exactly as [`port_value`] states.
pub fn parse_port(s: &str) -> (r: Option<u16>)
    ensures
        match r {
            Some(p) => port_value(s@) == Some(p as nat),
            None => port_value(s@) is None,
        },
{
    let len = s.unicode_len();
    let start: usize = if len > 0 && s.get_char(0) == '+' { 1 } else { 0 };
    let ghost body = port_digits(s@);
    assert(body =~= s@.subrange(start as int, len as int));
    if start == len {
        return None;
    }
    let mut value: u32 = 0;
    let mut i: usize = start;
    while i < len
        invariant
            len == s@.len(),
            start <= i <= len,
            body == s@.subrange(start as int, len as int),
            body == port_digits(s@),
            value as nat == digits_value(body.subrange(0, i - start)),
            value <= 65535,
            forall|k: int| 0 <= k < i - start ==> digit_value(#[trigger] body[k]) < 10,
        decreases len - i,
    {
        let c = s.get_char(i);
        assert(c == body[i - start]);
        let d: u32 = if c == '0' { 0 } else if c == '1' { 1 } else if c == '2' { 2 } else if c == '3' { 3 }
            else if c == '4' { 4 } else if c == '5' { 5 } else if c == '6' { 6 } else if c == '7' { 7 }
            else if c == '8' { 8 } else if c == '9' { 9 } else { 10 };
        assert(body.subrange(0, i + 1 - start).drop_last() =~= body.subrange(0, i - start));
        if d == 10 {
            assert(digit_value(body[i - start]) == 10);
            assert(!all_digits(body));
            return None;
        }
        let next: u32 = value * 10 + d;
        if next > 65535 {
            proof {
                if all_digits(body) {
                    lemma_prefix_value_mono(body, i + 1 - start);
                }
            }
            return None;
        }
        value = next;
        i = i + 1;
    }
    assert(body.subrange(0, len - start) =~= body);
    Some(value as u16)
}

/// `http://localhost:<port>`.
pub fn local_url(port: u16) -> (url: String)
    ensures
        url@ == "http://localhost:"@ + dec(port as nat),
{
    String::from_str("http://localhost:").concat(decimal_string(port as u64).as_str())
}

/// Startup configuration.
#[derive(Debug)]
pub struct Config {
    pub dataset_id: String,
    /// The local path of the offered file, as text.
    pub file_path: String,
    pub media_type: String,
    pub assigner: String,
    /// An optional `dateTime lteq <value>` constraint on the `use`
    /// permission, as an RFC 3339 timestamp, enforced on every GET.
    pub policy_not_after: Option<String>,
    pub signaling_port: u16,
    pub public_port: u16,
    pub public_base_url: String,
    /// The participant context this data plane registers under.
    pub participant_context_id: String,
    /// This data plane's own stable identifier, as registered.
    pub dataplane_id: String,
    /// The control plane to register with at startup, if any.
    pub control_plane_url: Option<String>,
    /// Accept START for any dataset id, as a conformance run needs.
    pub tck_mode: bool,
}

fn or_default(v: Option<String>, default: &str) -> (r: String)
    ensures
        r@ == match v { Some(s) => s@, None => default@ },
{
    match v {
        Some(s) => s,
        None => String::from_str(default),
    }
}

impl Config {
    /// The configuration the given settings describe, each absent one taking
    /// its default: dataset `primary`, file `sample-data/sample.csv`, media
    /// type `text/csv`, assigner `ds-sql-dps-rs`, signaling port 9191,
    /// public port 9192, public base URL `http://localhost:<public port>`,
    /// participant context `ds-sql-dps-rs`, data plane id
    /// `ds-sql-dps-rs-dataplane`, no policy deadline, no control plane. The
    /// conformance-test mode is on exactly when its setting is `true`.
    pub fn from_values(
        dataset_id: Option<String>,
        file_path: Option<String>,
        media_type: Option<String>,
        assigner: Option<String>,
        policy_not_after: Option<String>,
        signaling_port: Option<u16>,
        public_port: Option<u16>,
        public_base_url: Option<String>,
        participant_context_id: Option<String>,
        dataplane_id: Option<String>,
        control_plane_url: Option<String>,
        tck_mode: Option<String>,
    ) -> (c: Config)
        ensures
            c.dataset_id@ == match dataset_id { Some(s) => s@, None => "primary"@ },
            c.file_path@ == match file_path { Some(s) => s@, None => "sample-data/sample.csv"@ },
            c.media_type@ == match media_type { Some(s) => s@, None => "text/csv"@ },
            c.assigner@ == match assigner { Some(s) => s@, None => "ds-sql-dps-rs"@ },
            c.policy_not_after == policy_not_after,
            c.signaling_port == match signaling_port { Some(p) => p, None => 9191 },
            c.public_port == match public_port { Some(p) => p, None => 9192 },
            c.public_base_url@ == match public_base_url {
                Some(s) => s@,
                None => "http://localhost:"@ + dec(c.public_port as nat),
            },
            c.participant_context_id@ == match participant_context_id { Some(s) => s@, None => "ds-sql-dps-rs"@ },
            c.dataplane_id@ == match dataplane_id { Some(s) => s@, None => "ds-sql-dps-rs-dataplane"@ },
            c.control_plane_url == control_plane_url,
            c.tck_mode == (tck_mode matches Some(s) && s@ == "true"@),
    {
        let tck = match tck_mode {
            Some(s) => s == String::from_str("true"),
            None => false,
        };
        let public_port: u16 = match public_port { Some(p) => p, None => 9192 };
        let public_base_url = match public_base_url {
            Some(s) => s,
            None => local_url(public_port),
        };
        Config {
            dataset_id: or_default(dataset_id, "primary"),
            file_path: or_default(file_path, "sample-data/sample.csv"),
            media_type: or_default(media_type, "text/csv"),
            assigner: or_default(assigner, "ds-sql-dps-rs"),
            policy_not_after,
            signaling_port: match signaling_port { Some(p) => p, None => 9191 },
            public_port,
            public_base_url,
            participant_context_id: or_default(participant_context_id, "ds-sql-dps-rs"),
            dataplane_id: or_default(dataplane_id, "ds-sql-dps-rs-dataplane"),
            control_plane_url,
            tck_mode: tck,
        }
    }

    /// The public base URL once the public listener is bound to
    /// `bound_port`: with a configured port of 0 (an OS-assigned one),
    /// `http://localhost:<bound port>`; otherwise the configured URL.
    pub fn bound_public_base_url(&self, bound_port: u16) -> (url: String)
        ensures
            self.public_port == 0 ==> url@ == "http://localhost:"@ + dec(bound_port as nat),
            self.public_port != 0 ==> url@ == self.public_base_url@,
    {
        if self.public_port == 0 {
            local_url(bound_port)
        } else {
            self.public_base_url.clone()
        }
    }

    /// A configuration for tests: both ports 0 (an OS-assigned ephemeral
    /// port each, so parallel tests never collide), the caller's file path,
    /// and fixed demo values otherwise. The public base URL is left empty:
    /// the application derives it from the port the public listener is
    /// actually bound to.
    pub fn for_test(file_path: String) -> (c: Config)
        ensures
            c.dataset_id@ == "primary"@,
            c.file_path == file_path,
            c.media_type@ == "text/csv"@,
            c.assigner@ == "ds-sql-dps-rs-test"@,
            c.policy_not_after is None,
            c.signaling_port == 0,
            c.public_port == 0,
            c.public_base_url@ == Seq::<char>::empty(),
            c.participant_context_id@ == "ds-sql-dps-rs"@,
            c.dataplane_id@ == "ds-sql-dps-rs-dataplane"@,
            c.control_plane_url is None,
            !c.tck_mode,
    {
        Config {
            dataset_id: String::from_str("primary"),
            file_path,
            media_type: String::from_str("text/csv"),
            assigner: String::from_str("ds-sql-dps-rs-test"),
            policy_not_after: None,
            signaling_port: 0,
            public_port: 0,
            public_base_url: String::new(),
            participant_context_id: String::from_str("ds-sql-dps-rs"),
            dataplane_id: String::from_str("ds-sql-dps-rs-dataplane"),
            control_plane_url: None,
            tck_mode: false,
        }
    }

    /// The same configuration with a `dateTime lteq <not_after>` deadline on
    /// the `use` permission.
    pub fn with_policy_not_after(self, not_after: &str) -> (c: Config)
        ensures
            c.policy_not_after matches Some(s) && s@ == not_after@,
            c.dataset_id == self.dataset_id,
            c.file_path == self.file_path,
            c.media_type == self.media_type,
            c.assigner == self.assigner,
            c.signaling_port == self.signaling_port,
            c.public_port == self.public_port,
            c.public_base_url == self.public_base_url,
            c.participant_context_id == self.participant_context_id,
            c.dataplane_id == self.dataplane_id,
            c.control_plane_url == self.control_plane_url,
            c.tck_mode == self.tck_mode,
    {
        Config { policy_not_after: Some(String::from_str(not_after)), ..self }
    }

    /// The one [`FileOffer`] the configuration graph is seeded with: the
    /// configured dataset, file and media type, titled after the file, and
    /// one `use` permission, constrained by `dateTime lteq <deadline>` when a
    /// deadline is configured.
    pub fn file_offer(&self) -> (o: FileOffer)
        ensures
            o.dataset_id == self.dataset_id,
            o.title@ == self.file_path@ + " (ds-sql-dps-rs data offer)"@,
            o.file_path == self.file_path,
            o.media_type == self.media_type,
            o.assigner == self.assigner,
            permission_views(o.permissions@) == seq![crate::offer::PermissionView {
                action: "use"@,
                constraints: match self.policy_not_after {
                    Some(d) => seq![ConstraintView { left_operand: "dateTime"@, operator: "lteq"@, right_operand: d@ }],
                    None => Seq::empty(),
                },
            }],
    {
        let mut constraints: Vec<ConstraintSpec> = Vec::new();
        if let Some(not_after) = &self.policy_not_after {
            constraints.push(ConstraintSpec {
                left_operand: String::from_str("dateTime"),
                operator: String::from_str("lteq"),
                right_operand: not_after.clone(),
            });
        }
        let mut permissions: Vec<PermissionSpec> = Vec::new();
        permissions.push(PermissionSpec { action: String::from_str("use"), constraints });
        let o = FileOffer {
            dataset_id: self.dataset_id.clone(),
            title: self.file_path.clone().concat(" (ds-sql-dps-rs data offer)"),
            file_path: self.file_path.clone(),
            media_type: self.media_type.clone(),
            assigner: self.assigner.clone(),
            permissions,
        };
        assert(constraint_views(o.permissions@[0].constraints@) =~= match self.policy_not_after {
            Some(d) => seq![ConstraintView { left_operand: "dateTime"@, operator: "lteq"@, right_operand: d@ }],
            None => Seq::<ConstraintView>::empty(),
        });
        assert(permission_views(o.permissions@) =~= seq![crate::offer::PermissionView {
            action: "use"@,
            constraints: constraint_views(o.permissions@[0].constraints@),
        }]);
        o
    }

    /// This data plane's own signaling base URL,
    /// `http://localhost:<signaling port>`.
    pub fn signaling_base_url(&self) -> (url: String)
        ensures
            url@ == "http://localhost:"@ + dec(self.signaling_port as nat),
    {
        local_url(self.signaling_port)
    }

    /// The callback URL of the demo control plane the signaling SDK is told
    /// about: `http://localhost:<signaling port>/callback`.
    pub fn control_plane_callback_url(&self) -> (url: String)
        ensures
            url@ == "http://localhost:"@ + dec(self.signaling_port as nat) + "/callback"@,
    {
        self.signaling_base_url().concat("/callback")
    }

    /// The self-registration this data plane sends a control plane: its id,
    /// its signaling base URL as endpoint, and the `HttpData-PULL` transfer
    /// type.
    pub fn registration(&self) -> (r: DataPlaneRegistration)
        ensures
            r.dataplane_id == self.dataplane_id,
            r.endpoint@ == "http://localhost:"@ + dec(self.signaling_port as nat),
            r.transfer_types@.len() == 1,
            r.transfer_types@[0]@ == "HttpData-PULL"@,
            r.labels is None,
            r.authorization is None,
    {
        let mut transfer_types: Vec<String> = Vec::new();
        transfer_types.push(String::from_str("HttpData-PULL"));
        DataPlaneRegistration {
            dataplane_id: self.dataplane_id.clone(),
            endpoint: self.signaling_base_url(),
            transfer_types,
            labels: None,
            authorization: None,
        }
    }
}

} // verus!
