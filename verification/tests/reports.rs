//! Reports on logs as the Unreal tools write them.

use rtk_unreal::filter::{filter_output, filter_output_with_exit_code};
use rtk_unreal::mode::UnrealMode;
use rtk_unreal::patterns::LinePatterns;

const BUILD_SUCCESS: &str = r#"Using bundled DotNet SDK version: 8.0.300 linux-x64
Running AutomationTool bootstrap for LyraEditor Linux Development
Creating makefile for LyraEditor (no existing makefile)
Parsing headers for LyraEditor
Reflection code generated for LyraEditor in 3.1 seconds
Determining max actions to execute in parallel (16 physical cores, 32 logical cores)
Executing up to 16 processes, one per physical core
[1/18] Compile [x64] Module.LyraGame.1.cpp
[2/18] Compile [x64] Module.LyraGame.2.cpp
[3/18] Compile [x64] Module.LyraGame.3.cpp
[4/18] Compile [x64] Module.LyraGame.4.cpp
[5/18] Compile [x64] LyraGameModule.cpp
[6/18] Compile [x64] LyraInventoryComponent.cpp
[7/18] Compile [x64] LyraAbilityComponent.cpp
[8/18] Compile [x64] LyraCharacter.cpp
[9/18] Compile [x64] LyraPlayerController.cpp
[10/18] Compile [x64] LyraPlayerState.cpp
[11/18] Compile [x64] LyraGameMode.cpp
[12/18] Compile [x64] LyraHUD.cpp
[13/18] Compile [x64] LyraEditorEngine.cpp
[14/18] Compile [x64] LyraEditor.cpp
[15/18] Compile [x64] LyraEditor.init.gen.cpp
[16/18] Link [x64] libUnrealEditor-LyraGame.so
[17/18] Link [x64] libUnrealEditor-LyraEditor.so
[18/18] WriteMetadata LyraEditor.target
Total time in Parallel executor: 41.92 seconds
Total execution time: 47.10 seconds
Result: Succeeded
"#;

const BUILD_COMPILE_FAILURE: &str = r#"Using bundled DotNet SDK version: 8.0.300 linux-x64
Creating makefile for LyraEditor (source file removed)
Parsing headers for LyraEditor
[1/11] Compile [x64] Module.LyraGame.1.cpp
[2/11] Compile [x64] LyraInventoryComponent.cpp
/workspace/Lyra/Source/LyraGame/Inventory/LyraInventoryComponent.cpp:42:17: error: no member named 'GetItemCount' in 'ULyraInventoryComponent'
   42 |     return Other->GetItemCount();
      |            ~~~~~  ^
/workspace/Lyra/Source/LyraGame/Inventory/LyraInventoryComponent.cpp:57:9: warning: unused variable 'SlotIndex' [-Wunused-variable]
   57 |     int SlotIndex = 0;
      |         ^~~~~~~~~
1 warning and 1 error generated.
[3/11] Compile [x64] LyraCharacter.cpp
Total execution time: 12.41 seconds
Result: Failed (OtherCompilationError)
"#;

const BUILD_LINK_FAILURE: &str = r#"[1/3] Compile [x64] LyraAbilityComponent.cpp
[2/3] Link [x64] libUnrealEditor-LyraGame.so
ld.lld: error: undefined symbol: ULyraAbilityComponent::GrantStartupEffects()
>>> referenced by LyraAbilityComponent.cpp:88
Module.LyraGame.cpp.o: undefined reference to `ULyraAbilityComponent::GrantStartupEffects()'
clang++: error: linker command failed with exit code 1 (use -v to see invocation)
Total execution time: 9.87 seconds
Result: Failed (OtherCompilationError)
"#;

const BUILD_WINDOWS_MSVC_FAILURE: &str = r#"Creating makefile for LyraEditor (no existing makefile)
[1/10] Compile [x64] Module.LyraGame.1.cpp
[2/10] Compile [x64] LyraAbilityComponent.cpp
C:\Lyra\Source\LyraGame\Abilities\LyraAbilityComponent.cpp(88): error C2065: 'MissingAbility': undeclared identifier
C:\Lyra\Source\LyraGame\Abilities\LyraAbilityComponent.cpp(91): warning C4189: 'Handle': local variable is initialized but not referenced
[3/10] Compile [x64] LyraCharacter.cpp
Took 14.21s to run dotnet.exe, ExitCode=6
UnrealBuildTool failed. See log for more details. (C:\Lyra\Saved\Logs\UBT.txt)
AutomationTool exiting with ExitCode=6 (6)
BUILD FAILED
"#;

const BUILD_WINDOWS_LINK_FAILURE: &str = r#"[1/4] Compile [x64] LyraAbilityComponent.cpp
[2/4] Link [x64] UnrealEditor-LyraGame.lib
LyraAbilityComponent.cpp.obj : error LNK2019: unresolved external symbol "public: void __cdecl ULyraAbilityComponent::GrantStartupEffects(void)"
C:\Lyra\Binaries\Win64\UnrealEditor-LyraGame.dll : fatal error LNK1120: 1 unresolved externals
UnrealBuildTool failed. See log for more details. (C:\Lyra\Saved\Logs\UBT.txt)
BUILD FAILED
"#;

const BUILD_MACOS_CLANG_FAILURE: &str = r#"Using bundled DotNet SDK version: 8.0.300 mac-arm64
[1/9] Compile [arm64] Module.LyraGame.1.cpp
[2/9] Compile [arm64] LyraInventoryComponent.cpp
/Users/build/Lyra/Source/LyraGame/Inventory/LyraInventoryComponent.cpp:73:23: error: use of undeclared identifier 'MissingSlot'
    return Slots[MissingSlot];
                 ^
/Users/build/Lyra/Source/LyraGame/Inventory/LyraInventoryComponent.cpp:80:7: warning: unused variable 'Index' [-Wunused-variable]
1 warning and 1 error generated.
UnrealBuildTool failed. See log for more details.
Total execution time: 22.50 seconds
"#;

const UAT_COOK_FAILURE: &str = r#"Running AutomationTool...
Parsing command line: BuildCookRun -project=/workspace/Lyra/Lyra.uproject -cook
LogInit: Display: Running engine for game: Lyra
LogCook: Display: Cooked packages 125 Packages Remain 410 Total 535
LogCook: Display: Cooking /Game/Characters/Heroes/BP_Hero_Mage
LogBlueprint: Error: [Compiler BP_Hero_Mage] Could not find ability GA_MissingSpell
LogCook: Display: Cooked packages 535 Packages Remain 0 Total 535
LogCook: Error: Unable to cook package /Game/Characters/Heroes/BP_Hero_Mage
PackagingResults: Error: Unknown Cook Failure
AutomationTool exiting with ExitCode=25 (Error_UnknownCookFailure)
RunUAT ERROR: AutomationTool was unable to run successfully. Exited with code: 25
BUILD FAILED
"#;

const UAT_PACKAGE_SUCCESS: &str = r#"Running AutomationTool...
Using bundled DotNet SDK version: 8.0.300 linux-x64
Parsing command line: BuildCookRun -project=/workspace/Lyra/Lyra.uproject -targetplatform=Linux -clientconfig=Shipping
LogInit: Display: Running engine for game: Lyra
LogAssetRegistry: Display: Asset registry cache read as 41.2 MiB
LogStreaming: Display: FlushAsyncLoading(1): 1 QueuedPackages, 0 AsyncPackages
LogCook: Display: Cooked packages 100 Packages Remain 300 Total 400
LogCook: Display: Cooked packages 200 Packages Remain 200 Total 400
LogCook: Display: Cooked packages 300 Packages Remain 100 Total 400
LogCook: Display: Cooked packages 400 Packages Remain 0 Total 400
LogSavePackage: Display: Finished SavePackage /workspace/Lyra/Saved/Cooked/Linux/Lyra/Content/Maps/Expanse.umap
********** STAGE COMMAND STARTED **********
LogPakFile: Display: Added 4213 files, 812345678 bytes total, time 6.02s.
********** STAGE COMMAND COMPLETED **********
********** PACKAGE COMMAND STARTED **********
********** PACKAGE COMMAND COMPLETED **********
AutomationTool executed for 0h 4m 12s
AutomationTool exiting with ExitCode=0 (Success)
BUILD SUCCESSFUL
"#;

const UAT_PACKAGE_FAILURE: &str = r#"Running AutomationTool...
********** STAGE COMMAND STARTED **********
ERROR: Failed to copy /workspace/Lyra/Binaries/Linux/LyraGame to /workspace/Archive/LyraGame
AutomationTool: Error: Missing receipt '/workspace/Lyra/Binaries/Linux/LyraGame.target'. Check that this target has been built.
AutomationTool executed for 0h 0m 31s
AutomationTool exiting with ExitCode=1 (Error_Unknown)
RunUAT ERROR: AutomationTool was unable to run successfully. Exited with code: 1
BUILD FAILED
"#;

const COMMANDLET_SUCCESS: &str = r#"LogInit: Display: Running commandlet ResavePackages
LogAssetRegistry: Display: FAssetRegistry took 0.4512 seconds to start up
LogContentCommandlet: Display: [1/3] Resaving package /Game/Maps/Expanse
LogContentCommandlet: Display: [2/3] Resaving package /Game/Maps/Convolution
LogContentCommandlet: Display: [3/3] Resaving package /Game/Maps/FrontEnd
LogInit: Display: Success - 0 error(s), 0 warning(s)
Execution of commandlet took: 12.41 seconds
"#;

const COMMANDLET_FAILURE: &str = r#"LogInit: Display: Running commandlet CompileAllBlueprints
LogBlueprint: Warning: Compiling /Game/UI/Menu/WBP_MainMenu with unresolved bindings
LogOutputDevice: Error: Ensure condition failed: MenuClass [File:/workspace/Lyra/Source/LyraGame/UI/LyraMenuFactory.cpp] [Line: 51]
Stack:
UnrealEditor-LyraGame.so!ULyraMenuFactory::CreateMenu() [LyraMenuFactory.cpp:51]
UnrealEditor-UMG.so!UUserWidget::Initialize() [UserWidget.cpp:155]
Execution of commandlet took: 4.02 seconds
"#;

const COMMANDLET_MACOS_DYLIB_FAILURE: &str = r#"LogInit: Display: Running commandlet ResavePackages
LogAssetRegistry: Display: FAssetRegistry took 0.2280 seconds to start up
LogModuleManager: Error: Failed to load module LyraRuntime: dlopen(/Users/build/Lyra/Binaries/Mac/UnrealEditor-LyraRuntime.dylib)
UnrealEditor-LyraRuntime.dylib!FLyraRuntimeModule::StartupModule() [LyraRuntimeModule.cpp:19]
UnrealEditor-Core.dylib!FModuleManager::LoadModuleWithFailureReason() [ModuleManager.cpp:601]
Execution of commandlet took: 1.10 seconds
"#;

const AUTOMATION_SUCCESS: &str = r#"LogInit: Display: Running engine for game: Lyra
LogAssetRegistry: Display: FAssetRegistry took 0.3312 seconds to start up
LogAutomationController: Display: Running test Lyra.Inventory.CanAddItem
LogAutomationController: Display: Test Completed. Result={Success} Name={CanAddItem} Path={Lyra.Inventory.CanAddItem}
LogAutomationController: Display: Running test Lyra.Inventory.CanRemoveItem
LogAutomationController: Display: Test Completed. Result={Success} Name={CanRemoveItem} Path={Lyra.Inventory.CanRemoveItem}
LogAutomationController: Display: Running test Lyra.Inventory.ReplicatesInventory
LogAutomationController: Display: Test Completed. Result={Success} Name={ReplicatesInventory} Path={Lyra.Inventory.ReplicatesInventory}
LogAutomationCommandLine: Display: 3 tests completed, 0 failed
"#;

const AUTOMATION_SUCCESS_LINGERING_HANDLE: &str = r#"LogInit: Display: Running engine for game: Lyra
LogAutomationController: Display: Running test Lyra.Inventory.CanAddItem
LogAutomationController: Display: Test Completed. Result={Success} Name={CanAddItem} Path={Lyra.Inventory.CanAddItem}
LogAutomationCommandLine: Display: 3 tests completed, 0 failed
LogCore: Display: Engine exit requested while a child process still holds the log handle
"#;

const AUTOMATION_FAILURE: &str = r#"LogInit: Display: Running engine for game: Lyra
LogAutomationController: Display: Running test Lyra.Inventory.CanAddItem
LogAutomationController: Display: Test Completed. Result={Success} Name={CanAddItem} Path={Lyra.Inventory.CanAddItem}
LogAutomationController: Display: Running test Lyra.Inventory.ReplicatesInventory
LogAutomationController: Error: Test Completed. Result={Fail} Name={ReplicatesInventory} Path={Lyra.Inventory.ReplicatesInventory}
Expected replicated count to be 2, but it was 1
[File:/workspace/Lyra/Source/LyraTests/InventoryReplicationTest.cpp(64)]
LogAutomationCommandLine: Display: 2 tests completed, 1 failed
"#;

fn patterns() -> LinePatterns {
    LinePatterns::new().unwrap_or_else(|e| panic!("pattern refused: {}", e.pattern))
}

fn count_tokens(text: &str) -> usize {
    text.split_whitespace().count()
}

fn savings(raw: &str, filtered: &str) -> f64 {
    100.0 - (count_tokens(filtered) as f64 / count_tokens(raw) as f64 * 100.0)
}

#[test]
fn build_success_compacts_progress() {
    let raw = BUILD_SUCCESS;
    let args = vec![
        "Build.sh".to_string(),
        "LyraEditor".to_string(),
        "Linux".to_string(),
        "Development".to_string(),
    ];
    let out = filter_output(&patterns(), raw, UnrealMode::Build, &args);
    assert!(out.contains("unreal build: ok"));
    assert!(out.contains("LyraEditor Linux Development"));
    assert!(!out.contains("[1/18] Compile"));
    assert!(savings(raw, &out) >= 70.0);
}

#[test]
fn build_nonzero_exit_overrides_success_shaped_log() {
    let raw = BUILD_SUCCESS;
    let args = vec![
        "Build.sh".to_string(),
        "LyraEditor".to_string(),
        "Linux".to_string(),
        "Development".to_string(),
    ];
    let out = filter_output_with_exit_code(&patterns(), raw, UnrealMode::Build, &args, 134);
    assert!(out.contains("unreal build: failed"));
    assert!(out.contains("process exited with code 134"));
    assert!(!out.contains("unreal build: ok"));
}

#[test]
fn build_compile_failure_keeps_source_diagnostics() {
    let raw = BUILD_COMPILE_FAILURE;
    let out = filter_output(&patterns(), raw, UnrealMode::Build, &["Build.sh".to_string()]);
    assert!(out.contains("GetItemCount"));
    assert!(out.contains("LyraInventoryComponent.cpp"));
    assert!(out.contains("unused variable"));
    assert!(out.contains("Result: Failed"));
    assert!(!out.contains("[1/11] Compile"));
}

#[test]
fn build_link_failure_keeps_linker_details() {
    let raw = BUILD_LINK_FAILURE;
    let out = filter_output(&patterns(), raw, UnrealMode::Build, &["Build.sh".to_string()]);
    assert!(out.contains("undefined reference"));
    assert!(out.contains("GrantStartupEffects"));
    assert!(out.contains("linker command failed"));
}

#[test]
fn build_windows_msvc_failure_keeps_diagnostics() {
    let raw = BUILD_WINDOWS_MSVC_FAILURE;
    let out = filter_output(&patterns(), raw, UnrealMode::Build, &["Build.bat".to_string()]);
    assert!(out.contains("C2065"));
    assert!(out.contains("MissingAbility"));
    assert!(out.contains("LyraAbilityComponent.cpp"));
    assert!(out.contains("UnrealBuildTool failed"));
    assert!(!out.contains("[1/10] Compile"));
}

#[test]
fn build_windows_link_failure_keeps_linker_details() {
    let raw = BUILD_WINDOWS_LINK_FAILURE;
    let out = filter_output(&patterns(), raw, UnrealMode::Build, &["Build.bat".to_string()]);
    assert!(out.contains("LNK2019"));
    assert!(out.contains("GrantStartupEffects"));
    assert!(out.contains("LNK1120"));
    assert!(out.contains("UnrealBuildTool failed"));
}

#[test]
fn build_macos_clang_failure_keeps_diagnostics() {
    let raw = BUILD_MACOS_CLANG_FAILURE;
    let out = filter_output(&patterns(), raw, UnrealMode::Build, &["Build.sh".to_string()]);
    assert!(out.contains("MissingSlot"));
    assert!(out.contains("LyraInventoryComponent.cpp"));
    assert!(out.contains("unused variable"));
    assert!(out.contains("UnrealBuildTool failed"));
    assert!(!out.contains("[1/9] Compile"));
}

#[test]
fn cook_failure_keeps_asset_context_and_summary() {
    let raw = UAT_COOK_FAILURE;
    let out = filter_output(&patterns(), raw, UnrealMode::Cook, &["RunUAT.sh".to_string()]);
    assert!(out.contains("/Game/Characters/Heroes/BP_Hero_Mage"));
    assert!(out.contains("GA_MissingSpell"));
    assert!(out.contains("ExitCode=25"));
    assert!(!out.contains("Cooked packages 125"));
}

#[test]
fn package_success_compacts_stage_and_pak_noise() {
    let raw = UAT_PACKAGE_SUCCESS;
    let args = vec![
        "RunUAT.sh".to_string(),
        "BuildCookRun".to_string(),
        "-project=/workspace/Lyra/Lyra.uproject".to_string(),
        "-targetplatform=Linux".to_string(),
        "-clientconfig=Shipping".to_string(),
    ];
    let out = filter_output(&patterns(), raw, UnrealMode::Package, &args);
    assert!(out.contains("unreal package: ok"));
    assert!(out.contains("Lyra.uproject Linux Shipping"));
    assert!(!out.contains("Cooked packages 300"));
    assert!(savings(raw, &out) >= 60.0);
}

#[test]
fn package_failure_keeps_uat_errors() {
    let raw = UAT_PACKAGE_FAILURE;
    let out = filter_output(&patterns(), raw, UnrealMode::Package, &["RunUAT.sh".to_string()]);
    assert!(out.contains("Failed to copy"));
    assert!(out.contains("Missing receipt"));
    assert!(out.contains("RunUAT ERROR"));
    assert!(out.contains("ExitCode=1"));
}

#[test]
fn commandlet_success_compacts() {
    let raw = COMMANDLET_SUCCESS;
    let args = vec!["UnrealEditor-Cmd".to_string(), "-run=ResavePackages".to_string()];
    let out = filter_output(&patterns(), raw, UnrealMode::Commandlet, &args);
    assert!(out.contains("unreal commandlet: ok  ResavePackages"));
    assert!(!out.contains("Resaving package"));
}

#[test]
fn commandlet_failure_keeps_ensure_stack() {
    let raw = COMMANDLET_FAILURE;
    let args = ["UnrealEditor-Cmd".to_string()];
    let out = filter_output(&patterns(), raw, UnrealMode::Commandlet, &args);
    assert!(out.contains("WBP_MainMenu"));
    assert!(out.contains("Ensure condition failed"));
    assert!(out.contains("ULyraMenuFactory::CreateMenu"));
}

#[test]
fn commandlet_macos_dylib_failure_keeps_module_stack() {
    let raw = COMMANDLET_MACOS_DYLIB_FAILURE;
    let args = ["UnrealEditor-Cmd".to_string()];
    let out = filter_output(&patterns(), raw, UnrealMode::Commandlet, &args);
    assert!(out.contains("UnrealEditor-LyraRuntime.dylib"));
    assert!(out.contains("FLyraRuntimeModule::StartupModule"));
    assert!(out.contains("Failed to load module LyraRuntime"));
    assert!(!out.contains("FAssetRegistry took"));
}

#[test]
fn automation_success_compacts_pass_noise() {
    let raw = AUTOMATION_SUCCESS;
    let args = ["UnrealEditor-Cmd".to_string()];
    let out = filter_output(&patterns(), raw, UnrealMode::Automation, &args);
    assert!(out.contains("unreal automation: ok"));
    assert!(out.contains("3 tests completed"));
    assert!(!out.contains("CanAddItem"));
    assert!(savings(raw, &out) >= 60.0);
}

#[test]
fn automation_success_lingering_handle_fixture_compacts_summary() {
    let raw = AUTOMATION_SUCCESS_LINGERING_HANDLE;
    let args = ["UnrealEditor-Cmd".to_string()];
    let out = filter_output(&patterns(), raw, UnrealMode::Automation, &args);
    assert!(out.contains("unreal automation: ok"));
    assert!(out.contains("3 tests completed, 0 failed"));
    assert!(!out.contains("CanAddItem"));
}

#[test]
fn automation_nonzero_exit_overrides_success_summary() {
    let raw = AUTOMATION_SUCCESS;
    let args = ["UnrealEditor-Cmd".to_string()];
    let out = filter_output_with_exit_code(&patterns(), raw, UnrealMode::Automation, &args, 42);
    assert!(out.contains("unreal automation: failed"));
    assert!(out.contains("process exited with code 42"));
    assert!(out.contains("3 tests completed"));
    assert!(!out.contains("unreal automation: ok"));
}

#[test]
fn automation_failure_keeps_failed_test_details() {
    let raw = AUTOMATION_FAILURE;
    let args = ["UnrealEditor-Cmd".to_string()];
    let out = filter_output(&patterns(), raw, UnrealMode::Automation, &args);
    assert!(out.contains("Lyra.Inventory.ReplicatesInventory"));
    assert!(out.contains("Expected replicated count"));
    assert!(out.contains("InventoryReplicationTest.cpp"));
    assert!(out.contains("1 failed"));
    assert!(!out.contains("CanAddItem"));
}

#[test]
fn large_failure_cascade_gets_omitted_count() {
    let mut raw = String::new();
    for i in 0..30 {
        raw.push_str(&format!(
            "LogCook: Error: Unable to cook package /Game/Broken/Asset{}\n",
            i
        ));
    }
    raw.push_str("BUILD FAILED\n");
    let out = filter_output(&patterns(), &raw, UnrealMode::Cook, &["RunUAT.sh".to_string()]);
    assert!(out.contains("... +"));
    assert!(out.contains("more diagnostics"));
}
