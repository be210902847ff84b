//! The style sheet and the browser runtimes that the Warp 4 pages embed.
use vstd::prelude::*;

verus! {

/// The style sheet of the Warp 4 UI elements.
pub const UI_CSS: &'static str = "\n\
*{box-sizing:border-box}\n\
html,body,#app{width:100%;height:100%;margin:0;padding:0}\n\
html,body{overflow:hidden}\n\
body{font-family:Roboto,\"Helvetica Neue\",Arial,sans-serif;font-size:14px;background:#fff;color:#222;-webkit-font-smoothing:antialiased;text-rendering:optimizeLegibility}\n\
#app{overflow:hidden}\n\
.baram-view{box-sizing:border-box;min-width:0;min-height:0;gap:8px}\n\
.baram-linear{display:flex;min-width:0;min-height:0;align-items:stretch}\n\
.baram-scroll{min-width:0;min-height:0;overscroll-behavior:contain;-webkit-overflow-scrolling:touch}\n\
.baram-relative,.baram-frame,.baram-absolute{position:relative;min-width:0;min-height:0}\n\
.baram-frame>.baram-view{position:absolute}\n\
.baram-grid{display:grid;min-width:0;min-height:0}\n\
.baram-table{border-collapse:separate;border-spacing:6px;width:auto;max-width:100%}\n\
.baram-table.stretch-all{width:100%;table-layout:fixed}\n\
.baram-table td{vertical-align:middle;padding:0;min-width:0}\n\
.baram-table.stretch-all td>.baram-view{width:100%!important;max-width:100%}\n\
.baram-space{display:block}\n\
.style-SectionTitle{width:100%!important;margin:22px 0 8px!important;padding:0!important;font-size:24px!important;line-height:30px!important;font-weight:700!important}\n\
.style-SectionDescription{width:100%!important;margin:0 0 14px!important;padding:0!important;font-size:13px!important;line-height:18px!important;color:#666}\n\
.style-ComponentLabel{width:100%!important;margin:14px 0 6px!important;padding:0!important;font-size:15px!important;line-height:20px!important;color:#333}\n\
.style-ComponentBox{margin-bottom:3px}\n\
.baram-text{display:block;white-space:pre-wrap;line-height:1.25}\n\
.baram-button,.baram-image-button,.baram-toggle{-webkit-appearance:none;appearance:none;position:relative;min-width:64px;min-height:48px;margin:0;padding:0 16px;border:1px solid #aaa;border-radius:2px;outline:none;background:linear-gradient(#fafafa,#e5e5e5);color:#222;font:400 18px/46px Roboto,\"Helvetica Neue\",Arial,sans-serif;text-align:center;cursor:pointer;user-select:none}\n\
.baram-primary-button{-webkit-appearance:none;appearance:none;position:relative;min-width:64px;min-height:48px;margin:0;padding:0 16px;border:1px solid #007dff;border-radius:2px;outline:none;background:#007dff;color:#fff;font:400 18px/46px Roboto,\"Helvetica Neue\",Arial,sans-serif;text-align:center;cursor:pointer;user-select:none}\n\
.baram-primary-button:hover{background:#0070e8;border-color:#0070e8}.baram-primary-button:active{background:#0060c4;border-color:#0060c4}\n\
.baram-button:active,.baram-image-button:active,.baram-toggle:active{background:#d6d6d6}\n\
.baram-edit{-webkit-appearance:none;appearance:none;display:block;min-width:80px;min-height:38px;margin:0;padding:7px 4px 5px;border:0;border-bottom:2px solid #33b5e5;border-radius:0;outline:none;background:transparent;color:#222;font:400 16px/22px Roboto,\"Helvetica Neue\",Arial,sans-serif}\n\
textarea.baram-edit{min-height:58px;resize:vertical;border:1px solid #aaa;border-bottom:2px solid #33b5e5;padding:7px}\n\
.baram-checkbox,.baram-radio{display:inline-flex;align-items:center;gap:10px;min-height:42px;padding:2px 0;cursor:pointer;user-select:none;outline:none}\n\
.baram-checkbox .mark{width:22px;height:22px;position:relative;flex:0 0 22px;border:2px solid #777;border-radius:1px}\n\
.baram-checkbox[data-checked=\"true\"] .mark{border-color:#33b5e5}\n\
.baram-checkbox[data-checked=\"true\"] .mark:after{content:\"\";position:absolute;left:5px;top:1px;width:7px;height:13px;border:solid #33b5e5;border-width:0 3px 3px 0;transform:rotate(45deg)}\n\
.baram-radio .mark{width:22px;height:22px;position:relative;flex:0 0 22px;border:2px solid #777;border-radius:50%}\n\
.baram-radio[data-checked=\"true\"] .mark{border-color:#33b5e5}\n\
.baram-radio[data-checked=\"true\"] .mark:after{content:\"\";position:absolute;inset:4px;border-radius:50%;background:#33b5e5}\n\
.baram-switch{display:inline-flex;align-items:center;gap:11px;min-height:44px;padding:2px 0;cursor:pointer;user-select:none;outline:none}\n\
.baram-switch .track{width:52px;height:22px;position:relative;flex:0 0 52px;border:1px solid #888;background:#aaa}\n\
.baram-switch .thumb{position:absolute;left:-1px;top:-4px;width:28px;height:28px;border:1px solid #777;background:#eee;transition:left .1s linear}\n\
.baram-switch[data-checked=\"true\"] .track{background:#7ed9ef;border-color:#33b5e5}\n\
.baram-switch[data-checked=\"true\"] .thumb{left:25px;background:#33b5e5;border-color:#1688a4}\n\
.baram-spinner{-webkit-appearance:auto;appearance:auto;min-height:38px;padding:6px 30px 5px 7px;border:0;border-bottom:2px solid #33b5e5;border-radius:0;outline:none;background:#fff;color:#222;font:400 15px Roboto,\"Helvetica Neue\",Arial,sans-serif}\n\
.baram-seek{width:100%;height:30px;margin:0;accent-color:#33b5e5}\n\
.baram-rating{display:inline-flex;gap:1px;align-items:center;min-height:34px;font-size:25px;line-height:1;user-select:none;cursor:pointer;width:fit-content}\n\
.baram-rating .star{color:#aaa}.baram-rating .star.on{color:#f3b400}\n\
.baram-progress-horizontal{width:100%;height:6px;border:0;accent-color:#33b5e5}\n\
.baram-progress-spinner{width:28px;height:28px;border-radius:50%;border:4px solid #ccc;border-top-color:#33b5e5;animation:w3u-spin .8s linear infinite}\n\
@keyframes w3u-spin{to{transform:rotate(360deg)}}\n\
.baram-image-placeholder{display:flex;align-items:center;justify-content:center;min-width:56px;min-height:48px;border:1px solid #aaa;background:#eee;font-size:12px}\n\
.camera-icon{position:relative;display:inline-block;width:24px;height:17px;border:2px solid #555;border-radius:2px}.camera-icon:before{content:\"\";position:absolute;left:6px;top:-6px;width:8px;height:5px;border:2px solid #555;border-bottom:0}.camera-icon:after{content:\"\";position:absolute;left:7px;top:3px;width:7px;height:7px;border:2px solid #555;border-radius:50%}\n\
.baram-list,.baram-expandable{overflow:auto;border-top:1px solid #ccc;border-bottom:1px solid #ccc}.baram-list-row{min-height:44px;display:flex;align-items:center;padding:0 12px;border-bottom:1px solid #ddd}.baram-list-row:last-child{border-bottom:0}.baram-expand-head{font-weight:500;background:#eee}\n\
.baram-grid-list{display:grid;gap:1px;overflow:auto}.baram-grid-cell{min-height:48px;display:flex;align-items:center;justify-content:center;background:#eee}\n\
.baram-search{width:100%;min-height:38px;padding:7px 8px 5px;border:0;border-bottom:2px solid #33b5e5;outline:none;font:400 15px Roboto,\"Helvetica Neue\",Arial,sans-serif}\n\
.baram-number-picker{display:inline-flex;align-items:center;width:fit-content;border:1px solid #aaa}.baram-number-picker button{width:34px;height:34px;border:0;font-size:18px;cursor:pointer}.baram-number-picker input{width:60px;height:34px;border:0;border-left:1px solid #aaa;border-right:1px solid #aaa;text-align:center}\n\
.baram-date,.baram-time{min-height:38px;padding:5px;border:1px solid #aaa;font:14px Roboto,Arial,sans-serif}\n\
.baram-web,.baram-video{display:flex;align-items:center;justify-content:center;border:1px solid #aaa;background:#eee}.baram-video:before{content:\"▶\";font-size:22px;margin-right:8px}\n\
.baram-viewflipper{position:relative;overflow:hidden}.baram-viewflipper>.baram-view{position:absolute!important;left:0!important;top:0!important;right:0!important;bottom:0!important;opacity:0;pointer-events:none}.baram-viewflipper>.baram-view.active{opacity:1;pointer-events:auto}\n\
.baram-unknown:empty:before{content:attr(data-unknown-tag);font:12px monospace;color:#999}\n\
.baram-scroll::-webkit-scrollbar{width:6px;height:6px}.baram-scroll::-webkit-scrollbar-track{background:transparent}.baram-scroll::-webkit-scrollbar-thumb{background:#999}\n\
";

/// The runtime that lays out Warp 4 UI elements in the browser.
pub const UI_RUNTIME_JS: &'static str = "\n\
\"use strict\";\n\
const q=(s,r=document)=>Array.from(r.querySelectorAll(s));\n\
const truth=v=>String(v).toLowerCase()===\"true\";\n\
const num=(v,d=0)=>{const n=parseFloat(v);return Number.isFinite(n)?n:d};\n\
const refName=v=>(v||\"\").replace(/^@\\+?id\\//,\"\").replace(/^@id\\//,\"\").replace(/^@baram:id\\//,\"\");\n\
const meta=(el,k)=>el.getAttribute(\"data-w3u-\"+k.toLowerCase());\n\
function setChecked(el,v){el.dataset.checked=v?\"true\":\"false\";el.setAttribute(\"aria-checked\",v?\"true\":\"false\")}\n\
function activate(el,fn){el.addEventListener(\"click\",e=>{e.preventDefault();e.stopPropagation();fn(e)});el.addEventListener(\"keydown\",e=>{if(e.key===\" \"||e.key===\"Enter\"){e.preventDefault();e.stopPropagation();fn(e)}})}\n\
q(\".baram-checkbox\").forEach(el=>{setChecked(el,truth(el.dataset.checked));activate(el,()=>setChecked(el,!truth(el.dataset.checked)))});\n\
q(\".baram-radio\").forEach(el=>{setChecked(el,truth(el.dataset.checked));activate(el,()=>{const group=el.closest(\".baram-radio-group\");if(group)q(\":scope > .baram-radio\",group).forEach(x=>setChecked(x,x===el));else setChecked(el,true)})});\n\
q(\".baram-radio-group\").forEach(group=>{const radios=q(\":scope > .baram-radio\",group);const selected=radios.find(x=>truth(x.dataset.checked));if(selected)radios.forEach(x=>setChecked(x,x===selected))});\n\
q(\".baram-switch\").forEach(el=>{setChecked(el,truth(el.dataset.checked));activate(el,()=>setChecked(el,!truth(el.dataset.checked)))});\n\
q(\".baram-toggle\").forEach(el=>{const sync=()=>{const checked=truth(el.dataset.checked);el.setAttribute(\"aria-pressed\",checked?\"true\":\"false\");el.textContent=checked?el.dataset.textOn:el.dataset.textOff};sync();el.addEventListener(\"click\",()=>{el.dataset.checked=truth(el.dataset.checked)?\"false\":\"true\";sync()})});\n\
q(\".baram-rating\").forEach(el=>el.addEventListener(\"click\",e=>{const count=Math.max(1,num(el.dataset.stars,5));const r=el.getBoundingClientRect();const next=Math.max(0,Math.min(count,Math.ceil((e.clientX-r.left)/Math.max(1,r.width)*count)));q(\".star\",el).forEach((s,i)=>s.classList.toggle(\"on\",i<next));el.dataset.rating=String(next)}));\n\
q(\".baram-number-picker\").forEach(el=>{const input=el.querySelector(\"input\");el.addEventListener(\"click\",e=>{const action=e.target?.getAttribute?.(\"data-number-action\");if(action===\"minus\")input.stepDown();if(action===\"plus\")input.stepUp()})});\n\
q(\".baram-chronometer\").forEach(el=>{const start=performance.now();const tick=()=>{if(!el.isConnected)return;const sec=Math.floor((performance.now()-start)/1000);el.textContent=String(Math.floor(sec/60)).padStart(2,\"0\")+\":\"+String(sec%60).padStart(2,\"0\");setTimeout(tick,250)};tick()});\n\
q(\".baram-viewflipper\").forEach(el=>{const kids=Array.from(el.children);if(!kids.length)return;let i=0;kids[0].classList.add(\"active\");if(truth(el.dataset.autoStart)){const delay=Math.max(250,num(el.dataset.flipInterval,3000));setInterval(()=>{if(!el.isConnected)return;kids[i].classList.remove(\"active\");i=(i+1)%kids.length;kids[i].classList.add(\"active\")},delay)}});\n\
function margins(el){const all=meta(el,\"layout_margin\"),h=meta(el,\"layout_marginhorizontal\"),v=meta(el,\"layout_marginvertical\");return{top:num(meta(el,\"layout_margintop\")||v||all),right:num(meta(el,\"layout_marginright\")||meta(el,\"layout_marginend\")||h||all),bottom:num(meta(el,\"layout_marginbottom\")||v||all),left:num(meta(el,\"layout_marginleft\")||meta(el,\"layout_marginstart\")||h||all)}}\n\
function layoutRelative(el){const kids=Array.from(el.children);const ids={};kids.forEach(h=>{if(h.dataset.baramId)ids[h.dataset.baramId]=h});const pr=el.getBoundingClientRect();kids.forEach(ch=>{ch.style.position=\"absolute\";const r=ch.getBoundingClientRect();const m=margins(ch);let x=m.left,y=m.top;if(truth(meta(ch,\"layout_alignparentright\"))||truth(meta(ch,\"layout_alignparentend\")))x=pr.width-r.width-m.right;if(truth(meta(ch,\"layout_centerhorizontal\"))||truth(meta(ch,\"layout_centerinparent\")))x=(pr.width-r.width)/2;if(truth(meta(ch,\"layout_alignparentbottom\")))y=pr.height-r.height-m.bottom;if(truth(meta(ch,\"layout_centervertical\"))||truth(meta(ch,\"layout_centerinparent\")))y=(pr.height-r.height)/2;const below=ids[refName(meta(ch,\"layout_below\"))],above=ids[refName(meta(ch,\"layout_above\"))],right=ids[refName(meta(ch,\"layout_torightof\")||meta(ch,\"layout_toendof\"))],left=ids[refName(meta(ch,\"layout_toleftof\")||meta(ch,\"layout_tostartof\"))];if(below){const q=below.getBoundingClientRect();y=q.bottom-pr.top+m.top}if(above){const q=above.getBoundingClientRect();y=q.top-pr.top-r.height-m.bottom}if(right){const q=right.getBoundingClientRect();x=q.right-pr.left+m.left}if(left){const q=left.getBoundingClientRect();x=q.left-pr.left-r.width-m.right}const al=ids[refName(meta(ch,\"layout_alignleft\")||meta(ch,\"layout_alignstart\"))],ar=ids[refName(meta(ch,\"layout_alignright\")||meta(ch,\"layout_alignend\"))],at=ids[refName(meta(ch,\"layout_aligntop\"))],ab=ids[refName(meta(ch,\"layout_alignbottom\"))];if(al)x=al.getBoundingClientRect().left-pr.left+m.left;if(ar)x=ar.getBoundingClientRect().right-pr.left-r.width-m.right;if(at)y=at.getBoundingClientRect().top-pr.top+m.top;if(ab)y=ab.getBoundingClientRect().bottom-pr.top-r.height-m.bottom;ch.style.left=Math.max(0,x)+\"px\";ch.style.top=Math.max(0,y)+\"px\"})}\n\
function layoutFrame(el){const pr=el.getBoundingClientRect();Array.from(el.children).forEach(ch=>{const r=ch.getBoundingClientRect();const g=(meta(ch,\"layout_gravity\")||\"top|left\").split(\"|\");let x=0,y=0;if(g.includes(\"center\")||g.includes(\"center_horizontal\"))x=(pr.width-r.width)/2;else if(g.includes(\"right\")||g.includes(\"end\"))x=pr.width-r.width;if(g.includes(\"center\")||g.includes(\"center_vertical\"))y=(pr.height-r.height)/2;else if(g.includes(\"bottom\"))y=pr.height-r.height;ch.style.left=Math.max(0,x)+\"px\";ch.style.top=Math.max(0,y)+\"px\"})}\n\
function relayout(){q(\".baram-relative\").forEach(layoutRelative);q(\".baram-frame\").forEach(layoutFrame)}\n\
requestAnimationFrame(relayout);window.addEventListener(\"resize\",()=>requestAnimationFrame(relayout));\n\
";

/// The runtime that runs compiled Warp 4 scripts in the browser.
pub const SCRIPT_RUNTIME_JS: &'static str = "\n\
\"use strict\";\n\
const scriptState={vars:Object.create(null),consts:Object.create(null)};\n\
const scriptFunctions=Object.create(null);\n\
const SCRIPT_BREAK=Symbol(\"break\");\n\
const SCRIPT_NONE=Symbol(\"none\");\n\
let scriptCurrentScreen=\"\";\n\
\n\
function scriptFindSquare(value,open){let depth=0;for(let i=open;i<value.length;i++){if(value[i]===\"[\")depth++;else if(value[i]===\"]\"){depth--;if(depth===0)return i}}return -1}\n\
function scriptCalc(value){const expr=String(value);if(!/^[0-9+*/%().\\s-]+$/.test(expr))throw new Error(\"calc の式を解析できません: \"+expr);const result=Function(\"return (\"+expr+\")\")();if(!Number.isFinite(result))throw new Error(\"calc の結果が有限の数値ではありません\");return Number.isInteger(result)?String(result):String(result)}\n\
function scriptExpandPass(input){let out=\"\",changed=false;for(let i=0;i<input.length;){let kind=input.startsWith(\"var[\",i)?\"var\":input.startsWith(\"const[\",i)?\"const\":input.startsWith(\"calc[\",i)?\"calc\":null;if(!kind){out+=input[i++];continue}const open=i+kind.length,close=scriptFindSquare(input,open);if(close<0)throw new Error(kind+\"[ ... ] の ']' が不足しています\");const inner=scriptExpandAll(input.slice(open+1,close));if(kind===\"calc\"){out+=scriptCalc(inner);changed=true}else{const table=kind===\"var\"?scriptState.vars:scriptState.consts;const key=inner.trim();if(Object.prototype.hasOwnProperty.call(table,key)){out+=table[key];changed=true}else out+=input.slice(i,close+1)}i=close+1}return [out,changed]}\n\
function scriptExpandAll(input){let current=String(input??\"\");for(let i=0;i<256;i++){const [next,changed]=scriptExpandPass(current);if(!changed||next===current)return next;current=next}throw new Error(\"展開回数が上限を超えました。循環参照の可能性があります\")}\n\
function scriptCompare(left,operator,right){let a=scriptExpandAll(left).trim(),b=scriptExpandAll(right).trim();if(a===\"()\")a=\"\";if(b===\"()\")b=\"\";if(operator===\"=\")return a===b;if(operator===\"!=\")return a!==b;const x=Number(a),y=Number(b);if(!Number.isFinite(x)||!Number.isFinite(y))return false;return operator===\"<\"?x<y:x>y}\n\
function scriptFind(id){const root=document.querySelector(\".warp-screen.active\");if(!root)return null;const wanted=scriptExpandAll(id).trim();return q(\"[data-baram-id]\",root).find(el=>el.dataset.baramId===wanted)||null}\n\
function scriptDim(value){const v=String(value??\"\");if(v===\"match_parent\"||v===\"fill_parent\")return \"100%\";if(v===\"wrap_content\")return \"auto\";if(v===\"0dp\")return \"0px\";if(/^[-+]?(?:\\d+\\.?\\d*|\\.\\d+)(?:dp|dip|sp|px)?$/.test(v))return parseFloat(v)+\"px\";return v}\n\
function scriptSetProperty(command,id,value){const el=scriptFind(id);if(!el)return;const v=scriptExpandAll(value).trim();const css={textColor:\"color\",background:\"background\",textSize:\"fontSize\",alpha:\"opacity\",layout_width:\"width\",layout_height:\"height\"}[command];if(css)el.style[css]=css===\"fontSize\"||command.startsWith(\"layout_\")?scriptDim(v):v;else if(command===\"layout_weight\"){el.style.flexGrow=Number(v)||0}else if(command.startsWith(\"padding\")||command.startsWith(\"layout_margin\")){const prop=command.replace(/[A-Z]/g,m=>\"-\"+m.toLowerCase()).replace(\"layout-\",\"\");el.style[prop]=scriptDim(v)}else if(command.startsWith(\"layout_\")||command===\"gravity\"){el.setAttribute(\"data-w3u-\"+command.toLowerCase(),v)}if(typeof relayout===\"function\")requestAnimationFrame(relayout)}\n\
const scriptUi={\n\
\x20text:(id,value)=>{const el=scriptFind(id);if(!el)return;const text=scriptExpandAll(value);if(el.matches(\"input,textarea,select\"))el.value=text;else if(el.classList.contains(\"baram-switch\")){const label=el.querySelector(\".control-text\");if(label)label.textContent=text}else el.textContent=text},\n\
\x20getText:id=>{const el=scriptFind(id);return el?.value??el?.textContent??\"\"},\n\
\x20editText:(id,value)=>{const el=scriptFind(id);if(el&&el.matches(\"input,textarea\"))el.value=scriptExpandAll(value)},\n\
\x20visibility:(id,value)=>{const el=scriptFind(id);if(!el)return;const v=scriptExpandAll(value).trim();el.style.display=v===\"gone\"?\"none\":\"\";el.style.visibility=v===\"invisible\"?\"hidden\":\"\"},\n\
\x20screen:name=>scriptActivateScreen(scriptExpandAll(name).replace(/\\.(?:w3u|w4u)$/,\"\"))\n\
};\n\
function scriptDuration(value){const match=String(value).trim().match(/^([0-9]+(?:\\.[0-9]+)?)(ns|us|ms|s|m|h)$/);if(!match)throw new Error(\"wait の時間に単位がありません: \"+value);const n=Number(match[1]),unit=match[2];return n*(unit===\"ns\"?1e-6:unit===\"us\"?1e-3:unit===\"ms\"?1:unit===\"s\"?1000:unit===\"m\"?60000:3600000)}\n\
function scriptDelay(value){return new Promise(resolve=>setTimeout(resolve,scriptDuration(value)))}\n\
async function scriptCallFunction(name,loopDepth){const key=scriptExpandAll(name).trim(),body=scriptFunctions[key];if(!body)throw new Error(\"関数 '\"+key+\"' は定義されていません\");return scriptRunOps(body,loopDepth)}\n\
async function scriptExecuteCommand(op,loopDepth){\n\
\x20const command=scriptExpandAll(op.name).trim(),target=op.target==null?null:scriptExpandAll(op.target).trim(),value=op.value==null?\"\":scriptExpandAll(op.value);\n\
\x20if(command===\"var.set\"){if(!(target in scriptState.vars))scriptState.vars[target]=value;return SCRIPT_NONE}\n\
\x20if(command===\"var.edit\"){if(target in scriptState.vars)scriptState.vars[target]=value;return SCRIPT_NONE}\n\
\x20if(command===\"const.set\"){if(!(target in scriptState.consts))scriptState.consts[target]=value;return SCRIPT_NONE}\n\
\x20if(command===\"break\")return loopDepth>0?SCRIPT_BREAK:SCRIPT_NONE;\n\
\x20if(command===\"print\"){console.log(value);return SCRIPT_NONE}\n\
\x20if(command===\"wait\"){await scriptDelay(value);return SCRIPT_NONE}\n\
\x20if(command===\"fun\")return scriptCallFunction(value,loopDepth);\n\
\x20if(command===\"for\"){for(;;){const signal=await scriptCallFunction(value,loopDepth+1);if(signal===SCRIPT_BREAK)break;if(signal!==SCRIPT_NONE)return signal}return SCRIPT_NONE}\n\
\x20if(command===\"WarpUI.screen\"){await scriptUi.screen(value);return SCRIPT_NONE}\n\
\x20if(command.startsWith(\"WarpUI.\")){\n\
\x20\x20const action=command.slice(\"WarpUI.\".length);\n\
\x20\x20if(action===\"text\")scriptUi.text(target,value);\n\
\x20\x20else if(action===\"textColor\"||action===\"background\"||action===\"textSize\")scriptSetProperty(action,target,value);\n\
\x20\x20else if(action===\"visibility\")scriptUi.visibility(target,value);\n\
\x20\x20else if(action===\"editText\")scriptUi.editText(target,value);\n\
\x20\x20else if(action===\"getText\"){if(value in scriptState.vars)scriptState.vars[value]=scriptUi.getText(target)}\n\
\x20\x20else if(action!==\"OnClick\")scriptSetProperty(action,target,value);\n\
\x20\x20return SCRIPT_NONE;\n\
\x20}\n\
\x20throw new Error(\"不明な命令です: \"+command);\n\
}\n\
async function scriptRunOps(ops,loopDepth=0){for(const op of ops||[]){let signal=SCRIPT_NONE;if(op.kind===\"command\")signal=await scriptExecuteCommand(op,loopDepth);else if(op.kind===\"if\"&&scriptCompare(op.left,op.operator,op.right))signal=await scriptRunOps(op.body,loopDepth);if(signal!==SCRIPT_NONE)return signal}return SCRIPT_NONE}\n\
function scriptRegisterFunctions(program){for(const definition of program?.functions||[]){const name=scriptExpandAll(definition.name).trim();if(name)scriptFunctions[name]=definition.body}}\n\
function scriptWire(screen){const program=SCREENS[screen];if(!program)return;for(const [id,ops] of Object.entries(program.events||{})){const el=scriptFind(id);if(!el||el.dataset.scriptWired)return;el.dataset.scriptWired=\"true\";el.addEventListener(\"click\",async event=>{event.stopPropagation();try{await scriptRunOps(ops)}catch(error){console.error(error)}})}}\n\
async function scriptActivateScreen(name){const next=String(name);const screen=document.getElementById(\"screen-\"+CSS.escape(next));if(!screen)return;q(\".warp-screen\").forEach(el=>el.classList.toggle(\"active\",el===screen));scriptCurrentScreen=next;const program=SCREENS[next];scriptRegisterFunctions(program);try{await scriptRunOps(program.init)}catch(error){console.error(error)}scriptWire(next);if(typeof relayout===\"function\")requestAnimationFrame(relayout)}\n\
scriptRegisterFunctions(SCREENS[ENTRY]);\n\
scriptActivateScreen(ENTRY);\n\
";

} // verus!
