//! Creation of a replacement instance on Google Cloud from a machine image,
//! with this machine's SSH key added to the instance's metadata.
use crate::entropy::random_u32;
use crate::text::{after_last, decimal, decimal_string_u32, owned, push_text, same_text, segment_after_last};
use vstd::prelude::*;

verus! {

/// A metadata entry of a machine image.
#[derive(Debug)]
pub struct MetadataItem {
    pub key: Option<String>,
    pub value: Option<String>,
}

/// A machine image, as far as it is looked up by name.
#[derive(Debug)]
pub struct MachineImage {
    pub name: Option<String>,
}

/// A network interface of a created instance.
#[derive(Debug)]
pub struct NetworkInterface {
    pub network_ip: Option<String>,
}

/// The metadata key under which an instance keeps its authorized SSH keys.
pub open spec fn ssh_keys_key() -> Seq<char> {
    "ssh-keys"@
}

/// Every item has a key, and the SSH-keys items have a value.
pub open spec fn metadata_editable(items: Seq<MetadataItem>) -> bool {
    forall|i: int|
        0 <= i < items.len() ==> (#[trigger] items[i]).key is Some && (items[i].key->0@
            == ssh_keys_key() ==> items[i].value is Some)
}

/// `after` is `before` with `ssh_key` added, on a line of its own, to the
/// value of every SSH-keys item, and every other item as it was.
pub open spec fn ssh_key_added(
    before: Seq<MetadataItem>,
    after: Seq<MetadataItem>,
    ssh_key: Seq<char>,
) -> bool {
    &&& after.len() == before.len()
    &&& forall|i: int|
        0 <= i < before.len() ==> {
            &&& (#[trigger] after[i]).key == before[i].key
            &&& before[i].key->0@ == ssh_keys_key() ==> after[i].value is Some
                && after[i].value->0@ == before[i].value->0@ + "\n"@ + ssh_key
            &&& before[i].key->0@ != ssh_keys_key() ==> after[i].value == before[i].value
        }
}

/// Adds `ssh_key` to the SSH keys in `items`, keeping the keys already there.
pub fn add_ssh_key_to_metadata(items: &mut Vec<MetadataItem>, ssh_key: &str)
    requires
        metadata_editable(old(items)@),
    ensures
        ssh_key_added(old(items)@, final(items)@, ssh_key@),
{
    let n = items.len();
    let mut i: usize = 0;
    while i < n
        invariant
            n == items@.len(),
            n == old(items)@.len(),
            i <= n,
            metadata_editable(old(items)@),
            forall|k: int| i <= k < n ==> #[trigger] items@[k] == old(items)@[k],
            forall|k: int|
                0 <= k < i ==> {
                    &&& (#[trigger] items@[k]).key == old(items)@[k].key
                    &&& old(items)@[k].key->0@ == ssh_keys_key() ==> items@[k].value is Some
                        && items@[k].value->0@ == old(items)@[k].value->0@ + "\n"@ + ssh_key@
                    &&& old(items)@[k].key->0@ != ssh_keys_key() ==> items@[k].value == old(
                        items,
                    )@[k].value
                },
        decreases n - i,
    {
        assert(items@[i as int] == old(items)@[i as int]);
        let is_ssh_keys = match &items[i].key {
            Some(k) => same_text(k.as_str(), "ssh-keys"),
            None => false,
        };
        if is_ssh_keys {
            let key = items[i].key.clone();
            let mut value = match &items[i].value {
                Some(v) => v.clone(),
                None => String::new(),
            };
            push_text(&mut value, "\n");
            push_text(&mut value, ssh_key);
            items.set(i, MetadataItem { key, value: Some(value) });
        }
        i = i + 1;
    }
}

/// Position of the first machine image named `name`, if any.
pub fn find_machine_image(images: &Vec<MachineImage>, name: &str) -> (r: Option<usize>)
    ensures
        r matches Some(i) ==> i < images@.len() && images@[i as int].name is Some
            && images@[i as int].name->0@ == name@ && forall|j: int|
            0 <= j < i ==> !(images@[j].name is Some && images@[j].name->0@ == name@),
        r is None ==> forall|j: int|
            0 <= j < images@.len() ==> !(images@[j].name is Some && images@[j].name->0@
                == name@),
{
    let n = images.len();
    let mut i: usize = 0;
    while i < n
        invariant
            n == images@.len(),
            i <= n,
            forall|j: int|
                0 <= j < i ==> !(images@[j].name is Some && images@[j].name->0@ == name@),
        decreases n - i,
    {
        let found = match &images[i].name {
            Some(image_name) => same_text(image_name.as_str(), name),
            None => false,
        };
        if found {
            return Some(i);
        }
        i = i + 1;
    }
    None
}

/// The name of a new instance with the random suffix `suffix`.
pub open spec fn instance_name_of(suffix: u32) -> Seq<char> {
    "nested-qemu-"@ + decimal(suffix as nat)
}

/// The name of a new instance with the given suffix.
pub fn instance_name_with_suffix(suffix: u32) -> (r: String)
    ensures
        r@ == instance_name_of(suffix),
{
    let mut r = owned("nested-qemu-");
    let digits = decimal_string_u32(suffix);
    push_text(&mut r, digits.as_str());
    r
}

/// The name of a new instance, with a random suffix.
pub fn new_instance_name() -> (r: String)
    ensures
        exists|n: u32| r@ == #[trigger] instance_name_of(n),
{
    let suffix = random_u32();
    instance_name_with_suffix(suffix)
}

/// The disk image URL of `image` in `project`.
pub fn source_image_url(project: &str, image: &str) -> (r: String)
    ensures
        r@ == "projects/"@ + project@ + "/global/images/"@ + image@,
{
    let mut r = owned("projects/");
    push_text(&mut r, project);
    push_text(&mut r, "/global/images/");
    push_text(&mut r, image);
    r
}

/// The machine type URL of `machine_type` in `zone` of `project`.
pub fn machine_type_url(project: &str, zone: &str, machine_type: &str) -> (r: String)
    ensures
        r@ == "projects/"@ + project@ + "/zones/"@ + zone@ + "/machineTypes/"@ + machine_type@,
{
    let mut r = owned("projects/");
    push_text(&mut r, project);
    push_text(&mut r, "/zones/");
    push_text(&mut r, zone);
    push_text(&mut r, "/machineTypes/");
    push_text(&mut r, machine_type);
    r
}

/// The value of a metadata-server answer such as
/// `projects/123/zones/europe-west1-b`: its last `/`-separated segment.
pub fn metadata_leaf(answer: &str) -> (r: String)
    ensures
        r@ == after_last(answer@, '/'),
{
    segment_after_last(answer, '/')
}

/// The network interfaces, if present, are not an empty list.
pub open spec fn interfaces_well_formed(interfaces: Option<Vec<NetworkInterface>>) -> bool {
    interfaces matches Some(v) ==> v@.len() > 0
}

/// The internal address of a created instance once its first network
/// interface has one; `None` means to ask again.
pub fn instance_ip_poll(interfaces: &Option<Vec<NetworkInterface>>) -> (r: Option<String>)
    requires
        interfaces_well_formed(*interfaces),
    ensures
        interfaces is None ==> r is None,
        interfaces matches Some(v) ==> (r is Some <==> v@[0].network_ip is Some),
        interfaces matches Some(v) ==> (r matches Some(ip) ==> ip@ == v@[0].network_ip->0@),
{
    match interfaces {
        None => None,
        Some(v) => match &v[0].network_ip {
            Some(ip) => Some(ip.clone()),
            None => None,
        },
    }
}

} // verus!
