//! Decoding by the hardware: which devices to try, and which pixel format to
//! ask for.

use vstd::prelude::*;

verus! {

/// The kinds of decoding devices.
#[derive(Debug, Clone, Copy, PartialEq, Eq, Structural)]
pub enum HwDevice {
    Vaapi,
    Cuda,
    Vdpau,
    D3d11va,
    Dxva2,
    VideoToolbox,
    Other,
}

/// The platforms that are told apart.
#[derive(Debug, Clone, Copy, PartialEq, Eq, Structural)]
pub enum Platform {
    Linux,
    Windows,
    MacOs,
    Other,
}

/// The devices to try, the preferred ones first.
pub open spec fn devices_for(platform: Platform) -> Seq<HwDevice> {
    match platform {
        Platform::Linux => seq![HwDevice::Vaapi, HwDevice::Cuda, HwDevice::Vdpau],
        Platform::Windows => seq![HwDevice::D3d11va, HwDevice::Dxva2, HwDevice::Cuda],
        Platform::MacOs => seq![HwDevice::VideoToolbox],
        Platform::Other => seq![],
    }
}

/// The devices to try, the preferred ones first.
pub fn preferred_types(platform: Platform) -> (r: Vec<HwDevice>)
    ensures
        r@ == devices_for(platform),
{
    let r: Vec<HwDevice> = match platform {
        Platform::Linux => vec![HwDevice::Vaapi, HwDevice::Cuda, HwDevice::Vdpau],
        Platform::Windows => vec![HwDevice::D3d11va, HwDevice::Dxva2, HwDevice::Cuda],
        Platform::MacOs => vec![HwDevice::VideoToolbox],
        Platform::Other => Vec::new(),
    };
    assert(r@ =~= devices_for(platform));
    r
}

/// What a kind of device is called.
pub fn device_name(t: HwDevice) -> (r: &'static str)
    ensures
        r@ == (match t {
            HwDevice::Vaapi => "VAAPI"@,
            HwDevice::Cuda => "CUDA/NVDEC"@,
            HwDevice::Vdpau => "VDPAU"@,
            HwDevice::D3d11va => "D3D11VA"@,
            HwDevice::Dxva2 => "DXVA2"@,
            HwDevice::VideoToolbox => "VideoToolbox"@,
            HwDevice::Other => "?"@,
        }),
{
    match t {
        HwDevice::Vaapi => "VAAPI",
        HwDevice::Cuda => "CUDA/NVDEC",
        HwDevice::Vdpau => "VDPAU",
        HwDevice::D3d11va => "D3D11VA",
        HwDevice::Dxva2 => "DXVA2",
        HwDevice::VideoToolbox => "VideoToolbox",
        HwDevice::Other => "?",
    }
}

/// The pixel format to decode to: the one of the hardware where it is offered,
/// and otherwise the first one, so that decoding goes on in software. `none`
/// stands for no format.
pub fn choose_format(wanted: i32, formats: &[i32], none: i32) -> (r: i32)
    ensures
        formats@.contains(wanted) ==> r == wanted,
        !formats@.contains(wanted) && formats@.len() > 0 ==> r == formats@[0],
        formats@.len() == 0 ==> r == none,
{
    let mut i: usize = 0;
    while i < formats.len()
        invariant
            i <= formats@.len(),
            forall|k: int| 0 <= k < i ==> formats@[k] != wanted,
        decreases formats@.len() - i,
    {
        if formats[i] == wanted {
            assert(formats@[i as int] == wanted);
            return wanted;
        }
        i = i + 1;
    }
    if formats.len() > 0 {
        formats[0]
    } else {
        none
    }
}

// ---- Laws ------------------------------------------------------------------

/// Each platform tries its own device first, and none twice.
pub proof fn law_own_devices_come_first(platform: Platform)
    ensures
        devices_for(platform).no_duplicates(),
        devices_for(Platform::Linux)[0] == HwDevice::Vaapi,
        devices_for(Platform::Windows)[0] == HwDevice::D3d11va,
        devices_for(Platform::MacOs)[0] == HwDevice::VideoToolbox,
        devices_for(Platform::Other).len() == 0,
        devices_for(Platform::Linux).contains(HwDevice::Cuda) && devices_for(
            Platform::Windows,
        ).contains(HwDevice::Cuda),
{
    assert(devices_for(Platform::Linux)[1] == HwDevice::Cuda);
    assert(devices_for(Platform::Windows)[2] == HwDevice::Cuda);
}

} // verus!
